//! Properties of the library as a whole: the table of safe VCP features and
//! the safety boundary around it, how a feature's line is read, the checks
//! on writes, the read-back of written values, the combined brightness, and
//! the form of monitor ids.
use vstd::prelude::*;

use crate::backend::{
    close_block, detect_fold, detect_step, fresh_block, id_char, max_choice, monitor_from,
    normalize_id, parse_numbers, spec_parse_detect_output, spec_parse_number, spec_parse_vcp_line,
    spec_parse_vcp_output, vcp_controls, BackendErrorView, PendingView,
};
use crate::manager::{
    brightness_targets, scaled, spec_apply_readback, spec_plan_all_brightness, spec_plan_write,
    with_control, ManagerErrorView, WriteRequest,
};
use crate::model::{
    control_index, control_of, has_code, has_id, monitor_index, spec_choices,
    spec_feature_definition, ChoiceView, ControlKind, ControlView, MonitorView, ServiceStateView,
    BRIGHTNESS,
};
use crate::text::{
    decimal, hex2, is_digit, is_hex_digit, is_sep, is_ws, join, lemma_decimal,
    lemma_first_index_at, lemma_first_index_none, lemma_first_index_props, lemma_hex2,
    lemma_lines_concat, lemma_nonempty_all, lemma_parse_decimal, lemma_split_append,
    lemma_split_single, lines, nonempty, parse_bounded, split_by, starts_with, strip_cr,
    strip_prefix, strip_repeated, trim, trim_end_by, trim_start_by, words, Trimmed,
};

verus! {

/// A character a monitor id may hold besides `-`: a lower-case ASCII
/// letter or a digit.
pub open spec fn is_id_char(c: char) -> bool {
    ('a' <= c && c <= 'z') || ('0' <= c && c <= '9')
}

/// A monitor id: lower-case letters, digits and single dashes, with no dash
/// at either end.
pub open spec fn well_formed_id(s: Seq<char>) -> bool {
    &&& forall|i: int| 0 <= i < s.len() ==> is_id_char(#[trigger] s[i]) || s[i] == '-'
    &&& s.len() > 0 ==> is_id_char(s[0]) && is_id_char(s.last())
    &&& forall|i: int| 0 <= i < s.len() - 1 ==> !(#[trigger] s[i] == '-' && s[i + 1] == '-')
}

/// Every character of every piece satisfies `p`.
pub open spec fn pieces_all(ps: Seq<Seq<char>>, p: spec_fn(char) -> bool) -> bool {
    forall|k: int, j: int| 0 <= k < ps.len() && 0 <= j < ps[k].len() ==> p(#[trigger] ps[k][j])
}

/// Selects the characters of monitor ids other than `-`.
pub open spec fn id_chars() -> spec_fn(char) -> bool {
    |c: char| is_id_char(c)
}

proof fn lemma_id_char(c: char)
    ensures
        is_id_char(id_char(c)) || id_char(c) == '-',
{
}

proof fn lemma_split_pieces(s: Seq<char>)
    requires
        forall|i: int| 0 <= i < s.len() ==> (#[trigger] s[i] == '-' || is_id_char(s[i])),
    ensures
        pieces_all(split_by(s, Some('-')), id_chars()),
    decreases s.len(),
{
    if s.len() > 0 {
        let t = s.drop_last();
        assert forall|i: int| 0 <= i < t.len() implies (#[trigger] t[i] == '-' || is_id_char(
            t[i],
        )) by {
            assert(t[i] == s[i]);
        }
        lemma_split_pieces(t);
        crate::text::lemma_split_len(t, Some('-'));
        let p = split_by(t, Some('-'));
        let x = s.last();
        assert(s[s.len() - 1] == x);
        if x == '-' {
            let q = p.push(Seq::<char>::empty());
            assert forall|k: int, j: int| 0 <= k < q.len() && 0 <= j < q[k].len() implies (
            id_chars())(#[trigger] q[k][j]) by {
                assert(q[k] == p[k]);
            }
        } else {
            let q = p.update(p.len() - 1, p.last().push(x));
            assert forall|k: int, j: int| 0 <= k < q.len() && 0 <= j < q[k].len() implies (
            id_chars())(#[trigger] q[k][j]) by {
                if k == p.len() - 1 {
                    if j < p.last().len() {
                        assert(q[k][j] == p[p.len() - 1][j]);
                    }
                } else {
                    assert(q[k] == p[k]);
                }
            }
        }
    }
}

proof fn lemma_nonempty_pieces(ps: Seq<Seq<char>>)
    requires
        pieces_all(ps, id_chars()),
    ensures
        pieces_all(nonempty(ps), id_chars()),
        forall|k: int| 0 <= k < nonempty(ps).len() ==> (#[trigger] nonempty(ps)[k]).len() > 0,
    decreases ps.len(),
{
    if ps.len() > 0 {
        let t = ps.drop_last();
        assert forall|k: int, j: int| 0 <= k < t.len() && 0 <= j < t[k].len() implies (
        id_chars())(#[trigger] t[k][j]) by {
            assert(t[k] == ps[k]);
        }
        lemma_nonempty_pieces(t);
        if ps.last().len() > 0 {
            let q = nonempty(t).push(ps.last());
            assert forall|k: int, j: int| 0 <= k < q.len() && 0 <= j < q[k].len() implies (
            id_chars())(#[trigger] q[k][j]) by {
                if k < nonempty(t).len() {
                    assert(q[k] == nonempty(t)[k]);
                } else {
                    assert(q[k] == ps[ps.len() - 1]);
                }
            }
            assert forall|k: int| 0 <= k < q.len() implies (#[trigger] q[k]).len() > 0 by {
                if k < nonempty(t).len() {
                    assert(q[k] == nonempty(t)[k]);
                }
            }
        }
    }
}

proof fn lemma_join_well_formed(ps: Seq<Seq<char>>)
    requires
        pieces_all(ps, id_chars()),
        forall|k: int| 0 <= k < ps.len() ==> (#[trigger] ps[k]).len() > 0,
    ensures
        well_formed_id(join(ps, seq!['-'])),
    decreases ps.len(),
{
    if ps.len() == 1 {
        let a = ps[0];
        assert forall|i: int| 0 <= i < a.len() implies is_id_char(#[trigger] a[i]) by {
            assert((id_chars())(ps[0][i]));
        }
    } else if ps.len() > 1 {
        let t = ps.drop_last();
        assert forall|k: int, j: int| 0 <= k < t.len() && 0 <= j < t[k].len() implies (
        id_chars())(#[trigger] t[k][j]) by {
            assert(t[k] == ps[k]);
        }
        assert forall|k: int| 0 <= k < t.len() implies (#[trigger] t[k]).len() > 0 by {
            assert(t[k] == ps[k]);
        }
        lemma_join_well_formed(t);
        lemma_join_nonempty(t);
        let a = join(t, seq!['-']);
        let b = ps.last();
        assert(b == ps[ps.len() - 1]);
        assert forall|j: int| 0 <= j < b.len() implies is_id_char(#[trigger] b[j]) by {
            assert((id_chars())(ps[ps.len() - 1][j]));
        }
        let r = a + seq!['-'] + b;
        assert(r == join(ps, seq!['-']));
        assert forall|i: int| 0 <= i < r.len() implies is_id_char(#[trigger] r[i]) || r[i] == '-' by {
            if i < a.len() {
                assert(r[i] == a[i]);
            } else if i > a.len() {
                assert(r[i] == b[i - a.len() - 1]);
            }
        }
        assert(r[0] == a[0]);
        assert(r.last() == b.last());
        assert forall|i: int| 0 <= i < r.len() - 1 implies !(#[trigger] r[i] == '-' && r[i + 1]
            == '-') by {
            if i + 1 < a.len() {
                assert(r[i] == a[i]);
                assert(r[i + 1] == a[i + 1]);
            } else if i + 1 == a.len() {
                assert(r[i] == a.last());
            } else if i == a.len() {
                assert(r[i + 1] == b[0]);
            } else {
                assert(r[i] == b[i - a.len() - 1]);
            }
        }
    }
}

proof fn lemma_join_nonempty(ps: Seq<Seq<char>>)
    requires
        ps.len() > 0,
        forall|k: int| 0 <= k < ps.len() ==> (#[trigger] ps[k]).len() > 0,
    ensures
        join(ps, seq!['-']).len() > 0,
    decreases ps.len(),
{
    assert(ps[ps.len() - 1].len() > 0);
}

/// Law: whatever text it is made from, a monitor id holds only lower-case
/// letters, digits and single dashes, and neither begins nor ends with a
/// dash.
pub proof fn law_normalized_ids(s: Seq<char>)
    ensures
        well_formed_id(normalize_id(s)),
{
    let m = s.map_values(|c: char| id_char(c));
    assert forall|i: int| 0 <= i < m.len() implies (#[trigger] m[i] == '-' || is_id_char(m[i])) by {
        lemma_id_char(s[i]);
    }
    lemma_split_pieces(m);
    lemma_nonempty_pieces(split_by(m, Some('-')));
    lemma_join_well_formed(nonempty(split_by(m, Some('-'))));
}

proof fn lemma_detect_ids(ls: Seq<Seq<char>>)
    ensures
        forall|i: int|
            0 <= i < detect_fold(ls).0.len() ==> well_formed_id(#[trigger] detect_fold(ls).0[i].id),
    decreases ls.len(),
{
    if ls.len() > 0 {
        lemma_detect_ids(ls.drop_last());
        let (ms, p) = detect_fold(ls.drop_last());
        lemma_close_block_ids(ms, p);
    }
}

proof fn lemma_close_block_ids(ms: Seq<MonitorView>, p: PendingView)
    requires
        forall|i: int| 0 <= i < ms.len() ==> well_formed_id(#[trigger] ms[i].id),
    ensures
        forall|i: int|
            0 <= i < close_block(ms, p).len() ==> well_formed_id(#[trigger] close_block(ms, p)[i].id),
{
    match monitor_from(p) {
        Some(m) => {
            let (f0, f1, f2) = crate::backend::identity_fields(p.identity);
            let manufacturer = crate::text::trim(f0);
            let model = crate::text::trim(f1);
            let serial = crate::text::trim(f2);
            let last = if serial.len() == 0 {
                p.connector
            } else {
                serial
            };
            law_normalized_ids(manufacturer + seq!['-'] + model + seq!['-'] + last);
            let q = ms.push(m);
            assert forall|i: int| 0 <= i < q.len() implies well_formed_id(#[trigger] q[i].id) by {
                if i < ms.len() {
                    assert(q[i] == ms[i]);
                }
            }
        },
        None => {},
    }
}

/// Law: every monitor read from `detect --brief` output has a well-formed
/// id (lower-case letters, digits and single inner dashes).
pub proof fn law_detected_ids_well_formed(output: Seq<char>)
    ensures
        forall|i: int|
            0 <= i < spec_parse_detect_output(output).len() ==> well_formed_id(
                #[trigger] spec_parse_detect_output(output)[i].id,
            ),
{
    let ls = lines(output);
    lemma_detect_ids(ls);
    let (ms, p) = detect_fold(ls);
    lemma_close_block_ids(ms, p);
}

/// Law: a monitor's id does not depend on the bus it is reached on, and,
/// when it has a serial number, not on its connector either; so a monitor
/// keeps its id across reconnections.
pub proof fn law_id_stable(p: PendingView, q: PendingView)
    requires
        p.identity == q.identity,
        monitor_from(p) is Some,
        monitor_from(q) is Some,
        p.connector == q.connector || crate::text::trim(
            crate::backend::identity_fields(p.identity).2,
        ).len() > 0,
    ensures
        monitor_from(p).unwrap().id == monitor_from(q).unwrap().id,
{
}

/// `c` is of a safe feature, is writable, and carries that feature's key,
/// title, kind and named values.
pub open spec fn safe_control(c: ControlView) -> bool {
    &&& spec_feature_definition(c.code) matches Some(d)
    &&& c.key == d.key@
    &&& c.title == d.title@
    &&& c.kind == d.kind
    &&& c.writable
    &&& c.choices == spec_choices(c.code)
}

/// Law: every control read from `getvcp` output belongs to a safe feature,
/// is writable, and carries that feature's key, title, kind and named
/// values.
pub proof fn law_parsed_controls_are_safe(output: Seq<char>)
    ensures
        forall|i: int|
            0 <= i < spec_parse_vcp_output(output).len() ==> safe_control(
                #[trigger] spec_parse_vcp_output(output)[i],
            ),
{
    lemma_vcp_controls_safe(lines(output));
}

proof fn lemma_vcp_controls_safe(ls: Seq<Seq<char>>)
    ensures
        forall|i: int| 0 <= i < vcp_controls(ls).len() ==> safe_control(#[trigger] vcp_controls(ls)[i]),
    decreases ls.len(),
{
    if ls.len() > 0 {
        lemma_vcp_controls_safe(ls.drop_last());
        let prev = vcp_controls(ls.drop_last());
        match spec_parse_vcp_line(ls.last()) {
            Some(c) => {
                assert(safe_control(c));
                let q = prev.push(c);
                assert forall|i: int| 0 <= i < q.len() implies safe_control(#[trigger] q[i]) by {
                    if i < prev.len() {
                        assert(q[i] == prev[i]);
                    }
                }
            },
            None => {},
        }
    }
}

/// Law: a planned write is of a safe feature of a known monitor, on that
/// monitor's bus, to a writable control, with a value within the control's
/// maximum and among its named values when it has any.
pub proof fn law_planned_writes_are_checked(st: ServiceStateView, id: Seq<char>, code: u8, value: u16)
    ensures
        spec_plan_write(st, id, code, value) matches Ok(w) ==> {
            &&& spec_feature_definition(code) is Some
            &&& w.code == code
            &&& w.value == value
            &&& monitor_index(st.monitors, id) matches Some(mi)
            &&& 0 <= mi < st.monitors.len()
            &&& st.monitors[mi].id == id
            &&& w.bus == st.monitors[mi].bus
            &&& control_of(st.monitors[mi], code) matches Some(c)
            &&& c.code == code
            &&& c.writable
            &&& value <= c.maximum
            &&& (c.choices.len() == 0 || exists|k: int|
                0 <= k < c.choices.len() && (#[trigger] c.choices[k]).value == value)
        },
{
    lemma_first_index_props(st.monitors, has_id(id));
    if let Some(mi) = monitor_index(st.monitors, id) {
        lemma_first_index_props(st.monitors[mi].controls, has_code(code));
    }
}

/// Law: after a write whose read-back succeeded, the state shows the
/// read-back control as the monitor's control for that feature, and no
/// error.
pub proof fn law_readback_recorded(st: ServiceStateView, id: Seq<char>, code: u8, c: ControlView)
    requires
        c.code == code,
    ensures
        ({
            let (r, next) = spec_apply_readback(st, id, code, Ok(c));
            r is Ok ==> {
                &&& next.error is None
                &&& monitor_index(next.monitors, id) == monitor_index(st.monitors, id)
                &&& control_of(next.monitors[monitor_index(st.monitors, id).unwrap()], code)
                    == Some(c)
            }
        }),
{
    let (r, next) = spec_apply_readback(st, id, code, Ok(c));
    if r is Ok {
        lemma_first_index_props(st.monitors, has_id(id));
        let mi = monitor_index(st.monitors, id).unwrap();
        lemma_first_index_props(st.monitors[mi].controls, has_code(code));
        let ci = control_index(st.monitors[mi], code).unwrap();
        assert(next == with_control(st, mi, ci, c));
        assert(next.monitors[mi].id == id);
        assert forall|j: int| 0 <= j < mi implies !(has_id(id))(#[trigger] next.monitors[j]) by {
            assert(next.monitors[j] == st.monitors[j]);
        }
        lemma_first_index_at(next.monitors, has_id(id), mi);
        let nc = next.monitors[mi].controls;
        assert forall|j: int| 0 <= j < ci implies !(has_code(code))(#[trigger] nc[j]) by {
            assert(nc[j] == st.monitors[mi].controls[j]);
        }
        lemma_first_index_at(nc, has_code(code), ci);
    }
}

/// Law: a brightness percentage of at most 100 scales to a value between 0
/// and the monitor's maximum, the nearest one to that percentage of the
/// maximum (halves rounded up); 0 percent gives 0 and 100 percent gives the
/// maximum.
pub proof fn law_scaled_brightness(percent: u16, maximum: u16)
    requires
        percent <= 100,
    ensures
        0 <= scaled(percent, maximum) <= maximum,
        100 * scaled(percent, maximum) <= percent * maximum + 50 < 100 * scaled(percent, maximum)
            + 100,
        scaled(0, maximum) == 0,
        scaled(100, maximum) == maximum,
{
    assert(percent * maximum <= 100 * maximum) by (nonlinear_arith)
        requires
            percent <= 100,
    ;
    assert(0 <= scaled(percent, maximum) <= maximum) by (nonlinear_arith)
        requires
            percent * maximum <= 100 * maximum,
            scaled(percent, maximum) == (percent * maximum + 50) / 100,
    ;
    assert(scaled(100, maximum) == maximum) by (nonlinear_arith)
        requires
            scaled(100, maximum) == (100 * maximum + 50) / 100,
    ;
}

// ---------------------------------------------------------------------------
// Reading detection output in pieces
// ---------------------------------------------------------------------------
/// The state after reading `ls`, starting from `s`.
pub open spec fn fold_from(s: (Seq<MonitorView>, PendingView), ls: Seq<Seq<char>>) -> (
    Seq<MonitorView>,
    PendingView,
)
    decreases ls.len(),
{
    if ls.len() == 0 {
        s
    } else {
        let (ms, p) = fold_from(s, ls.drop_last());
        detect_step(ms, p, ls.last())
    }
}

/// The state before any line is read.
pub open spec fn initial_state() -> (Seq<MonitorView>, PendingView) {
    (Seq::empty(), fresh_block(false))
}

/// A line that, trimmed, begins a display block.
pub open spec fn opens_block(l: Seq<char>) -> bool {
    starts_with(trim(l), "Display "@) || trim(l) == "Invalid display"@
}

proof fn lemma_fold_init(ls: Seq<Seq<char>>)
    ensures
        detect_fold(ls) == fold_from(initial_state(), ls),
    decreases ls.len(),
{
    if ls.len() > 0 {
        lemma_fold_init(ls.drop_last());
    }
}

proof fn lemma_fold_compose(s: (Seq<MonitorView>, PendingView), x: Seq<Seq<char>>, y: Seq<Seq<char>>)
    ensures
        fold_from(s, x + y) == fold_from(fold_from(s, x), y),
    decreases y.len(),
{
    if y.len() == 0 {
        assert(x + y =~= x);
    } else {
        assert((x + y).drop_last() =~= x + y.drop_last());
        assert((x + y).last() == y.last());
        lemma_fold_compose(s, x, y.drop_last());
    }
}

proof fn lemma_close_shift(m: Seq<MonitorView>, x: Seq<MonitorView>, p: PendingView)
    ensures
        close_block(m + x, p) == m + close_block(x, p),
{
    if let Some(v) = monitor_from(p) {
        assert((m + x).push(v) =~= m + x.push(v));
    }
}

proof fn lemma_fold_shift(m: Seq<MonitorView>, x: Seq<MonitorView>, p: PendingView, ls: Seq<Seq<char>>)
    ensures
        fold_from((m + x, p), ls).0 == m + fold_from((x, p), ls).0,
        fold_from((m + x, p), ls).1 == fold_from((x, p), ls).1,
    decreases ls.len(),
{
    if ls.len() > 0 {
        lemma_fold_shift(m, x, p, ls.drop_last());
        let (a, q) = fold_from((x, p), ls.drop_last());
        let l = ls.last();
        let t = trim(l);
        if starts_with(t, "Display "@) || t == "Invalid display"@ {
            lemma_close_shift(m, a, q);
        }
    }
}

/// Law: detection output read in two parts gives the monitors of the first
/// part followed by those of the second, when the first part is empty or
/// ends its last line and the second part begins with a new display block.
pub proof fn law_detect_output_concatenates(a: Seq<char>, b: Seq<char>)
    requires
        a.len() == 0 || a.last() == '\n',
        lines(b).len() > 0,
        opens_block(lines(b)[0]),
    ensures
        spec_parse_detect_output(a + b) == spec_parse_detect_output(a) + spec_parse_detect_output(
            b,
        ),
{
    let la = lines(a);
    let lb = lines(b);
    lemma_lines_concat(a, b);
    lemma_fold_init(la + lb);
    lemma_fold_init(la);
    lemma_fold_init(lb);
    let init = initial_state();
    lemma_fold_compose(init, la, lb);
    let sa = fold_from(init, la);
    let l0 = lb[0];
    let first = seq![l0];
    let rest = lb.skip(1);
    assert(lb =~= first + rest);
    assert(first.drop_last() =~= Seq::<Seq<char>>::empty());
    assert(first.last() == l0);
    lemma_fold_compose(sa, first, rest);
    lemma_fold_compose(init, first, rest);
    let valid = starts_with(trim(l0), "Display "@);
    let c = close_block(sa.0, sa.1);
    assert(fold_from(sa, first.drop_last()) == sa);
    assert(fold_from(init, first.drop_last()) == init);
    assert(fold_from(sa, first) == (c, fresh_block(valid)));
    assert(close_block(Seq::<MonitorView>::empty(), fresh_block(false)) == Seq::<MonitorView>::empty());
    assert(fold_from(init, first) == (Seq::<MonitorView>::empty(), fresh_block(valid)));
    assert(c + Seq::<MonitorView>::empty() =~= c);
    lemma_fold_shift(c, Seq::<MonitorView>::empty(), fresh_block(valid), rest);
    let fb = fold_from((Seq::<MonitorView>::empty(), fresh_block(valid)), rest);
    lemma_close_shift(c, fb.0, fb.1);
}

// ---------------------------------------------------------------------------
// Reconnection
// ---------------------------------------------------------------------------
/// `l2` is `l1`, or both set the connector, or both set the bus.
pub open spec fn reconnected_line(l1: Seq<char>, l2: Seq<char>) -> bool {
    ||| l1 == l2
    ||| strip_prefix(trim(l1), "DRM connector:"@) is Some && strip_prefix(
        trim(l2),
        "DRM connector:"@,
    ) is Some
    ||| strip_prefix(trim(l1), "I2C bus:"@) is Some && strip_prefix(trim(l2), "I2C bus:"@) is Some
}

/// For each block that `ls` closes by opening a new one, in order, whether
/// the bus that finally stands in it names a usable device.
pub open spec fn bus_record(ls: Seq<Seq<char>>) -> Seq<bool>
    decreases ls.len(),
{
    if ls.len() == 0 {
        Seq::empty()
    } else {
        let r = bus_record(ls.drop_last());
        if opens_block(ls.last()) {
            r.push(detect_fold(ls.drop_last()).1.bus is Some)
        } else {
            r
        }
    }
}

/// For each block of detection output `s`, in order (the last one included),
/// whether the bus that finally stands in it names a usable device.
pub open spec fn block_buses(s: Seq<char>) -> Seq<bool> {
    bus_record(lines(s)).push(detect_fold(lines(s)).1.bus is Some)
}

/// `m2` is `m1` reached through another bus or connector: same name,
/// manufacturer, model, serial and controls, and the same id when the
/// monitor reports a serial or keeps its connector.
pub open spec fn same_monitor(m1: MonitorView, m2: MonitorView) -> bool {
    &&& m1.name == m2.name
    &&& m1.manufacturer == m2.manufacturer
    &&& m1.model == m2.model
    &&& m1.serial == m2.serial
    &&& m1.controls == m2.controls
    &&& (m1.serial.len() > 0 || m1.connector == m2.connector) ==> m1.id == m2.id
}

/// Pairwise `same_monitor`.
pub open spec fn same_monitors(ms1: Seq<MonitorView>, ms2: Seq<MonitorView>) -> bool {
    &&& ms1.len() == ms2.len()
    &&& forall|i: int| 0 <= i < ms1.len() ==> same_monitor(#[trigger] ms1[i], ms2[i])
}

/// Blocks that differ at most in their connector and bus.
pub open spec fn same_block(p1: PendingView, p2: PendingView) -> bool {
    &&& p1.valid == p2.valid
    &&& p1.identity == p2.identity
}

proof fn lemma_prefix_char(t: Seq<char>, p: Seq<char>, i: int)
    requires
        strip_prefix(t, p) is Some,
        0 <= i < p.len(),
    ensures
        t[i] == p[i],
{
    assert(t.take(p.len() as int)[i] == t[i]);
}

proof fn lemma_connection_lines(t: Seq<char>)
    ensures
        strip_prefix(t, "DRM connector:"@) is Some ==> !(starts_with(t, "Display "@) || t
            == "Invalid display"@) && strip_prefix(t, "I2C bus:"@) is None,
        strip_prefix(t, "I2C bus:"@) is Some ==> !(starts_with(t, "Display "@) || t
            == "Invalid display"@),
{
    reveal_strlit("DRM connector:");
    reveal_strlit("I2C bus:");
    reveal_strlit("Display ");
    reveal_strlit("Invalid display");
    if strip_prefix(t, "DRM connector:"@) is Some {
        lemma_prefix_char(t, "DRM connector:"@, 0);
        lemma_prefix_char(t, "DRM connector:"@, 1);
        if starts_with(t, "Display "@) {
            lemma_prefix_char(t, "Display "@, 1);
        }
        if strip_prefix(t, "I2C bus:"@) is Some {
            lemma_prefix_char(t, "I2C bus:"@, 0);
        }
        if t == "Invalid display"@ {
            assert(t[0] == 'I');
        }
    }
    if strip_prefix(t, "I2C bus:"@) is Some {
        lemma_prefix_char(t, "I2C bus:"@, 0);
        lemma_prefix_char(t, "I2C bus:"@, 1);
        if starts_with(t, "Display "@) {
            lemma_prefix_char(t, "Display "@, 0);
        }
        if t == "Invalid display"@ {
            assert(t[1] == 'n');
        }
    }
}

proof fn lemma_close_same(ms1: Seq<MonitorView>, p1: PendingView, ms2: Seq<MonitorView>, p2: PendingView)
    requires
        same_monitors(ms1, ms2),
        same_block(p1, p2),
        p1.bus is Some <==> p2.bus is Some,
    ensures
        same_monitors(close_block(ms1, p1), close_block(ms2, p2)),
{
    if monitor_from(p1) is Some {
        let m1 = monitor_from(p1).unwrap();
        let m2 = monitor_from(p2).unwrap();
        assert(same_monitor(m1, m2));
        let q1 = ms1.push(m1);
        let q2 = ms2.push(m2);
        assert forall|i: int| 0 <= i < q1.len() implies same_monitor(#[trigger] q1[i], q2[i]) by {
            if i < ms1.len() {
                assert(q1[i] == ms1[i]);
                assert(q2[i] == ms2[i]);
            }
        }
    }
}

proof fn lemma_step_same(
    ms1: Seq<MonitorView>,
    p1: PendingView,
    ms2: Seq<MonitorView>,
    p2: PendingView,
    l1: Seq<char>,
    l2: Seq<char>,
)
    requires
        same_monitors(ms1, ms2),
        same_block(p1, p2),
        reconnected_line(l1, l2),
        opens_block(l1) ==> (p1.bus is Some <==> p2.bus is Some),
    ensures
        opens_block(l1) == opens_block(l2),
        same_monitors(detect_step(ms1, p1, l1).0, detect_step(ms2, p2, l2).0),
        same_block(detect_step(ms1, p1, l1).1, detect_step(ms2, p2, l2).1),
{
    let t1 = trim(l1);
    let t2 = trim(l2);
    lemma_connection_lines(t1);
    lemma_connection_lines(t2);
    if starts_with(t1, "Display "@) || t1 == "Invalid display"@ {
        lemma_close_same(ms1, p1, ms2, p2);
    }
}

proof fn lemma_fold_same(l1: Seq<Seq<char>>, l2: Seq<Seq<char>>)
    requires
        l1.len() == l2.len(),
        forall|k: int| 0 <= k < l1.len() ==> reconnected_line(#[trigger] l1[k], l2[k]),
        bus_record(l1) == bus_record(l2),
    ensures
        same_monitors(detect_fold(l1).0, detect_fold(l2).0),
        same_block(detect_fold(l1).1, detect_fold(l2).1),
    decreases l1.len(),
{
    if l1.len() > 0 {
        let d1 = l1.drop_last();
        let d2 = l2.drop_last();
        assert forall|k: int| 0 <= k < d1.len() implies reconnected_line(#[trigger] d1[k], d2[k]) by {
            assert(d1[k] == l1[k]);
            assert(d2[k] == l2[k]);
        }
        let x1 = l1.last();
        let x2 = l2.last();
        assert(reconnected_line(l1[l1.len() - 1], l2[l2.len() - 1]));
        lemma_connection_lines(trim(x1));
        lemma_connection_lines(trim(x2));
        assert(opens_block(x1) == opens_block(x2));
        let r1 = bus_record(d1);
        let r2 = bus_record(d2);
        let b1 = detect_fold(d1).1.bus is Some;
        let b2 = detect_fold(d2).1.bus is Some;
        if opens_block(x1) {
            assert(r1.push(b1) == r2.push(b2));
            assert(r1 =~= r1.push(b1).drop_last());
            assert(r2 =~= r2.push(b2).drop_last());
            assert(b1 == r1.push(b1).last());
            assert(b2 == r2.push(b2).last());
        }
        lemma_fold_same(d1, d2);
        let (ms1, p1) = detect_fold(d1);
        let (ms2, p2) = detect_fold(d2);
        lemma_step_same(ms1, p1, ms2, p2, x1, x2);
    }
}

/// Law: reconnecting monitors elsewhere keeps their identity.  Take
/// detection output whose lines differ only in `DRM connector:` and
/// `I2C bus:` values, where the bus that finally stands in each block names
/// a usable device in both or in neither.  It gives the same monitors in the
/// same order, with the same names, manufacturers, models, serials and
/// controls; each keeps its id when it reports a serial number, or when its
/// connector did not change.
pub proof fn law_ids_survive_reconnection(s1: Seq<char>, s2: Seq<char>)
    requires
        lines(s1).len() == lines(s2).len(),
        forall|k: int| 0 <= k < lines(s1).len() ==> reconnected_line(#[trigger] lines(s1)[k], lines(s2)[k]),
        block_buses(s1) == block_buses(s2),
    ensures
        same_monitors(spec_parse_detect_output(s1), spec_parse_detect_output(s2)),
{
    let b1 = block_buses(s1);
    let b2 = block_buses(s2);
    assert(bus_record(lines(s1)) =~= b1.drop_last());
    assert(bus_record(lines(s2)) =~= b2.drop_last());
    assert(b1.last() == (detect_fold(lines(s1)).1.bus is Some));
    assert(b2.last() == (detect_fold(lines(s2)).1.bus is Some));
    lemma_fold_same(lines(s1), lines(s2));
    let (ms1, p1) = detect_fold(lines(s1));
    let (ms2, p2) = detect_fold(lines(s2));
    lemma_close_same(ms1, p1, ms2, p2);
}

// ---------------------------------------------------------------------------
// Writes that are let through, and writes that are refused
// ---------------------------------------------------------------------------
/// `mi` is the first of `ms` with id `id`.
pub open spec fn first_with_id(ms: Seq<MonitorView>, id: Seq<char>, mi: int) -> bool {
    &&& 0 <= mi < ms.len()
    &&& ms[mi].id == id
    &&& forall|j: int| 0 <= j < mi ==> (#[trigger] ms[j]).id != id
}

/// `ci` is the first of `cs` with code `code`.
pub open spec fn first_with_code(cs: Seq<ControlView>, code: u8, ci: int) -> bool {
    &&& 0 <= ci < cs.len()
    &&& cs[ci].code == code
    &&& forall|j: int| 0 <= j < ci ==> (#[trigger] cs[j]).code != code
}

/// Law: a write is planned whenever it passes every check.  When the feature
/// is a safe one, `mi` is the first monitor with id `id`, `ci` is that
/// monitor's first control with code `code`, the control is writable, the
/// value does not exceed its maximum and equals the value of its choice `k`
/// (any of them) or the control has no choices, the write goes to that
/// monitor's bus with the code and value asked for.
pub proof fn law_valid_writes_are_planned(
    st: ServiceStateView,
    id: Seq<char>,
    code: u8,
    value: u16,
    mi: int,
    ci: int,
    k: int,
)
    requires
        spec_feature_definition(code) is Some,
        first_with_id(st.monitors, id, mi),
        first_with_code(st.monitors[mi].controls, code, ci),
        st.monitors[mi].controls[ci].writable,
        value <= st.monitors[mi].controls[ci].maximum,
        st.monitors[mi].controls[ci].choices.len() == 0 || (0 <= k
            < st.monitors[mi].controls[ci].choices.len()
            && st.monitors[mi].controls[ci].choices[k].value == value),
    ensures
        spec_plan_write(st, id, code, value) == Ok::<WriteRequest, ManagerErrorView>(
            WriteRequest { bus: st.monitors[mi].bus, code, value },
        ),
{
    lemma_first_index_at(st.monitors, has_id(id), mi);
    lemma_first_index_at(st.monitors[mi].controls, has_code(code), ci);
    let c = st.monitors[mi].controls[ci];
    if c.choices.len() > 0 {
        assert(0 <= k < c.choices.len() && c.choices[k].value == value);
    }
}

// ---------------------------------------------------------------------------
// The combined brightness
// ---------------------------------------------------------------------------
/// Selects the monitors that have a brightness control.
pub open spec fn has_brightness() -> spec_fn(MonitorView) -> bool {
    |m: MonitorView| control_of(m, BRIGHTNESS) is Some
}

/// A monitor's id with `percent` of the maximum of its brightness control.
pub open spec fn brightness_target(percent: u16) -> spec_fn(MonitorView) -> (Seq<char>, u16) {
    |m: MonitorView| (m.id, scaled(percent, control_of(m, BRIGHTNESS).unwrap().maximum) as u16)
}

proof fn lemma_targets_filter(ms: Seq<MonitorView>, percent: u16)
    ensures
        brightness_targets(ms, percent) == ms.filter(has_brightness()).map_values(
            brightness_target(percent),
        ),
    decreases ms.len(),
{
    reveal(Seq::filter);
    if ms.len() > 0 {
        lemma_targets_filter(ms.drop_last(), percent);
        let f = ms.drop_last().filter(has_brightness());
        if control_of(ms.last(), BRIGHTNESS) is Some {
            assert(f.push(ms.last()).map_values(brightness_target(percent)) =~= f.map_values(
                brightness_target(percent),
            ).push((brightness_target(percent))(ms.last())));
        }
    }
}

proof fn lemma_filter_nonempty(ms: Seq<MonitorView>, p: spec_fn(MonitorView) -> bool, i: int)
    requires
        0 <= i < ms.len(),
        p(ms[i]),
    ensures
        ms.filter(p).len() > 0,
    decreases ms.len(),
{
    reveal(Seq::filter);
    if i < ms.len() - 1 {
        assert(ms.drop_last()[i] == ms[i]);
        lemma_filter_nonempty(ms.drop_last(), p, i);
    }
}

/// Law: any percentage from 0 to 100 is accepted as soon as one monitor has
/// a brightness control, and the plan lists, in the monitors' order, each
/// monitor with a brightness control, by id, with that percentage of its
/// control's maximum.
pub proof fn law_all_brightness_planned(st: ServiceStateView, percent: u16, i: int)
    requires
        percent <= 100,
        0 <= i < st.monitors.len(),
        control_of(st.monitors[i], BRIGHTNESS) is Some,
    ensures
        spec_plan_all_brightness(st, percent) == Ok::<Seq<(Seq<char>, u16)>, ManagerErrorView>(
            st.monitors.filter(has_brightness()).map_values(brightness_target(percent)),
        ),
        st.monitors.filter(has_brightness()).len() > 0,
{
    lemma_targets_filter(st.monitors, percent);
    lemma_filter_nonempty(st.monitors, has_brightness(), i);
}

// ---------------------------------------------------------------------------
// The read-back of a write
// ---------------------------------------------------------------------------
/// Law: a successful read-back replaces exactly one control.  When `mi` is
/// the first monitor with id `id` and `ci` its first control with code
/// `code`, the reply is `Ok`, the error is cleared, and the state is as it
/// was except that control `ci` of monitor `mi` is now the read-back
/// control: no monitor or control is added or dropped, and every other
/// monitor, every other control and every other field is unchanged.
pub proof fn law_readback_replaces_one_control(
    st: ServiceStateView,
    id: Seq<char>,
    code: u8,
    c: ControlView,
    mi: int,
    ci: int,
)
    requires
        first_with_id(st.monitors, id, mi),
        first_with_code(st.monitors[mi].controls, code, ci),
    ensures
        ({
            let (r, next) = spec_apply_readback(st, id, code, Ok(c));
            let m = st.monitors[mi];
            let n = next.monitors[mi];
            &&& r is Ok
            &&& next.error is None
            &&& next.api_version == st.api_version
            &&& next.ready == st.ready
            &&& next.ddcutil_version == st.ddcutil_version
            &&& next.monitors.len() == st.monitors.len()
            &&& forall|j: int|
                0 <= j < st.monitors.len() && j != mi ==> #[trigger] next.monitors[j]
                    == st.monitors[j]
            &&& n.id == m.id
            &&& n.name == m.name
            &&& n.manufacturer == m.manufacturer
            &&& n.model == m.model
            &&& n.serial == m.serial
            &&& n.connector == m.connector
            &&& n.bus == m.bus
            &&& n.controls.len() == m.controls.len()
            &&& n.controls[ci] == c
            &&& forall|j: int|
                0 <= j < m.controls.len() && j != ci ==> #[trigger] n.controls[j] == m.controls[j]
        }),
{
    lemma_first_index_at(st.monitors, has_id(id), mi);
    lemma_first_index_at(st.monitors[mi].controls, has_code(code), ci);
}

// ---------------------------------------------------------------------------
// The feature table
// ---------------------------------------------------------------------------
/// The feature `code` has a definition with key `key`, title `title` and
/// kind `kind`.
pub open spec fn defined_as(code: u8, key: Seq<char>, title: Seq<char>, kind: ControlKind) -> bool {
    spec_feature_definition(code) matches Some(d) && d.code == code && d.key@ == key && d.title@
        == title && d.kind == kind
}

/// Law: the safe features are brightness, contrast, volume, mute, the colour
/// preset and the red, green and blue gains, each under its own code, key,
/// title and kind; no two of them share a key or a title.
pub proof fn law_feature_table()
    ensures
        defined_as(0x10u8, "brightness"@, "Brightness"@, ControlKind::Continuous),
        defined_as(0x12u8, "contrast"@, "Contrast"@, ControlKind::Continuous),
        defined_as(0x62u8, "volume"@, "Monitor volume"@, ControlKind::Continuous),
        defined_as(0x8du8, "mute"@, "Monitor mute"@, ControlKind::Toggle),
        defined_as(0x14u8, "color_preset"@, "Colour preset"@, ControlKind::Choice),
        defined_as(0x16u8, "red_gain"@, "Red gain"@, ControlKind::Continuous),
        defined_as(0x18u8, "green_gain"@, "Green gain"@, ControlKind::Continuous),
        defined_as(0x1au8, "blue_gain"@, "Blue gain"@, ControlKind::Continuous),
        forall|c1: u8, c2: u8|
            c1 != c2 && spec_feature_definition(c1) is Some && spec_feature_definition(c2) is Some
                ==> {
                &&& spec_feature_definition(c1).unwrap().key@ != spec_feature_definition(
                    c2,
                ).unwrap().key@
                &&& spec_feature_definition(c1).unwrap().title@ != spec_feature_definition(
                    c2,
                ).unwrap().title@
            },
{
    reveal_strlit("brightness");
    reveal_strlit("Brightness");
    reveal_strlit("contrast");
    reveal_strlit("Contrast");
    reveal_strlit("volume");
    reveal_strlit("Monitor volume");
    reveal_strlit("mute");
    reveal_strlit("Monitor mute");
    reveal_strlit("color_preset");
    reveal_strlit("Colour preset");
    reveal_strlit("red_gain");
    reveal_strlit("Red gain");
    reveal_strlit("green_gain");
    reveal_strlit("Green gain");
    reveal_strlit("blue_gain");
    reveal_strlit("Blue gain");
    assert("brightness"@.len() == 10 && "brightness"@[0] == 'b');
    assert("Brightness"@.len() == 10 && "Brightness"@[0] == 'B');
    assert("contrast"@.len() == 8 && "contrast"@[0] == 'c');
    assert("Contrast"@.len() == 8 && "Contrast"@[0] == 'C');
    assert("volume"@.len() == 6 && "volume"@[0] == 'v');
    assert("Monitor volume"@.len() == 14 && "Monitor volume"@[0] == 'M');
    assert("mute"@.len() == 4 && "mute"@[0] == 'm');
    assert("Monitor mute"@.len() == 12 && "Monitor mute"@[0] == 'M');
    assert("color_preset"@.len() == 12 && "color_preset"@[0] == 'c');
    assert("Colour preset"@.len() == 13 && "Colour preset"@[0] == 'C');
    assert("red_gain"@.len() == 8 && "red_gain"@[0] == 'r');
    assert("Red gain"@.len() == 8 && "Red gain"@[0] == 'R');
    assert("green_gain"@.len() == 10 && "green_gain"@[0] == 'g');
    assert("Green gain"@.len() == 10 && "Green gain"@[0] == 'G');
    assert("blue_gain"@.len() == 9 && "blue_gain"@[0] == 'b');
    assert("Blue gain"@.len() == 9 && "Blue gain"@[0] == 'B');
}

// ---------------------------------------------------------------------------
// Reading a continuous control
// ---------------------------------------------------------------------------
/// The line `getvcp --terse` prints for a continuous feature `code` whose
/// current value is `current` and whose maximum is `maximum`.
pub open spec fn continuous_line(code: u8, current: u16, maximum: u16) -> Seq<char> {
    "VCP "@ + hex2(code) + " C "@ + decimal(current as nat) + " "@ + decimal(maximum as nat)
}

proof fn lemma_parse_decimal_field(n: u16)
    ensures
        spec_parse_number(decimal(n as nat)) == Some(n),
{
    let d = decimal(n as nat);
    lemma_decimal(n as nat);
    lemma_parse_decimal(n as nat, 0xffff);
    assert(is_digit(d[0]) && is_digit(d[d.len() - 1]));
    assert(trim_start_by(d, Trimmed::NonNumber) == d);
    assert(trim_end_by(d, Trimmed::NonNumber) == d);
    assert(d.take(1)[0] == d[0]);
    assert(!starts_with(d, seq!['x']));
    if d.len() >= 2 {
        assert(d.take(2)[1] == d[1]);
        assert(is_digit(d[1]));
    }
    assert(!starts_with(d, seq!['0', 'x']));
}

/// Law: a continuous feature is read with the current value and the
/// maximum that its line reports, whatever the current value is, as long as
/// the maximum is positive; the control carries the feature's code, key,
/// title, kind and named values and is writable.  The same line, ended,
/// makes an output that reports that control alone.
pub proof fn law_continuous_line_read(code: u8, current: u16, maximum: u16)
    requires
        spec_feature_definition(code) is Some,
        maximum > 0,
    ensures
        ({
            let d = spec_feature_definition(code).unwrap();
            let c = ControlView {
                code,
                key: d.key@,
                title: d.title@,
                kind: d.kind,
                current,
                maximum,
                writable: true,
                choices: spec_choices(code),
            };
            &&& spec_parse_vcp_line(continuous_line(code, current, maximum)) == Some(c)
            &&& spec_parse_vcp_output(continuous_line(code, current, maximum).push('\n')) == seq![c]
        }),
{
    reveal_strlit("VCP ");
    reveal_strlit(" C ");
    reveal_strlit(" ");
    reveal_strlit("VCP");
    reveal_strlit("C");
    let line = continuous_line(code, current, maximum);
    let w0 = "VCP"@;
    let w1 = hex2(code);
    let w2 = "C"@;
    let w3 = decimal(current as nat);
    let w4 = decimal(maximum as nat);
    lemma_hex2(code);
    lemma_decimal(current as nat);
    lemma_decimal(maximum as nat);
    let a1 = w0 + seq![' '] + w1;
    let a2 = a1 + seq![' '] + w2;
    let a3 = a2 + seq![' '] + w3;
    let a4 = a3 + seq![' '] + w4;
    assert(line =~= a4);
    assert forall|i: int| 0 <= i < w0.len() implies !is_ws(#[trigger] w0[i]) by {}
    assert forall|i: int| 0 <= i < w1.len() implies !is_ws(#[trigger] w1[i]) by {
        assert(is_hex_digit(w1[i]));
    }
    assert forall|i: int| 0 <= i < w2.len() implies !is_ws(#[trigger] w2[i]) by {}
    assert forall|i: int| 0 <= i < w3.len() implies !is_ws(#[trigger] w3[i]) by {
        assert(is_digit(w3[i]));
    }
    assert forall|i: int| 0 <= i < w4.len() implies !is_ws(#[trigger] w4[i]) by {
        assert(is_digit(w4[i]));
    }
    lemma_split_single(w0, None);
    lemma_split_append(w0, ' ', w1, None);
    lemma_split_append(a1, ' ', w2, None);
    lemma_split_append(a2, ' ', w3, None);
    lemma_split_append(a3, ' ', w4, None);
    let fields = seq![w0, w1, w2, w3, w4];
    assert(split_by(line, None) =~= fields);
    assert forall|i: int| 0 <= i < fields.len() implies (#[trigger] fields[i]).len() > 0 by {}
    lemma_nonempty_all(fields);
    assert(words(line) == fields);
    // The code field.
    assert(w1.take(2)[1] == w1[1]);
    assert(!starts_with(w1, seq!['0', 'x']));
    assert(strip_repeated(w1, seq!['0', 'x']) == w1);
    // The numbers.
    lemma_parse_decimal_field(current);
    lemma_parse_decimal_field(maximum);
    assert(fields.skip(3) =~= seq![w3, w4]);
    assert(seq![w3, w4].drop_last() =~= seq![w3]);
    assert(seq![w3].drop_last() =~= Seq::<Seq<char>>::empty());
    assert(seq![w3].last() == w3);
    assert(seq![w3, w4].last() == w4);
    assert(parse_numbers(Seq::<Seq<char>>::empty()) == Seq::<u16>::empty());
    assert(parse_numbers(seq![w3]) =~= seq![current]);
    assert(parse_numbers(seq![w3, w4]) =~= seq![current, maximum]);
    // The output made of the line alone.
    let out = line.push('\n');
    assert forall|i: int| 0 <= i < line.len() implies !is_sep(#[trigger] line[i], Some('\n')) by {
        assert(line[i] == a4[i]);
        if i < w0.len() {
            assert(a4[i] == w0[i]);
        } else if i == w0.len() || i == a1.len() || i == a2.len() || i == a3.len() {
            assert(a4[i] == ' ');
        } else if i < a1.len() {
            assert(a4[i] == w1[i - w0.len() - 1]);
            assert(is_hex_digit(w1[i - w0.len() - 1]));
        } else if i < a2.len() {
            assert(a4[i] == w2[i - a1.len() - 1]);
        } else if i < a3.len() {
            assert(a4[i] == w3[i - a2.len() - 1]);
            assert(is_digit(w3[i - a2.len() - 1]));
        } else {
            assert(a4[i] == w4[i - a3.len() - 1]);
            assert(is_digit(w4[i - a3.len() - 1]));
        }
    }
    lemma_split_single(line, Some('\n'));
    assert(out.drop_last() =~= line);
    assert(out.last() == '\n');
    assert(split_by(out, Some('\n')) == seq![line, Seq::<char>::empty()]);
    assert(line.last() == w4.last());
    assert(is_digit(w4[w4.len() - 1]));
    assert(strip_cr(line) == line);
    assert(lines(out) =~= seq![line]);
    assert(seq![line].drop_last() =~= Seq::<Seq<char>>::empty());
    assert(fields[0] == "VCP"@);
    assert(fields[1] == w1);
    assert(fields[2] == "C"@);
    assert(parse_bounded(strip_repeated(fields[1], seq!['0', 'x']), 16, 0xff) == Some(code as nat));
    let d = spec_feature_definition(code).unwrap();
    let c = ControlView {
        code,
        key: d.key@,
        title: d.title@,
        kind: d.kind,
        current,
        maximum,
        writable: true,
        choices: spec_choices(code),
    };
    assert(spec_parse_vcp_line(line) == Some(c));
    assert(seq![line].last() == line);
    assert(vcp_controls(Seq::<Seq<char>>::empty()) == Seq::<ControlView>::empty());
    assert(vcp_controls(seq![line]) =~= seq![c]);
}

/// The line `getvcp --terse` prints for a non-continuous feature `code`
/// whose current value is `value`.
pub open spec fn noncontinuous_line(code: u8, value: u16) -> Seq<char> {
    "VCP "@ + hex2(code) + " NC "@ + decimal(value as nat)
}

proof fn lemma_max_choice(cs: Seq<ChoiceView>)
    ensures
        cs.len() == 0 <==> max_choice(cs) is None,
        max_choice(cs) matches Some(m) ==> {
            &&& exists|k: int| 0 <= k < cs.len() && (#[trigger] cs[k]).value == m
            &&& forall|k: int| 0 <= k < cs.len() ==> (#[trigger] cs[k]).value <= m
        },
    decreases cs.len(),
{
    if cs.len() > 0 {
        let t = cs.drop_last();
        lemma_max_choice(t);
        let m = max_choice(cs).unwrap();
        assert forall|k: int| 0 <= k < cs.len() implies (#[trigger] cs[k]).value <= m by {
            if k < t.len() {
                assert(cs[k] == t[k]);
            }
        }
        if m == cs.last().value {
            assert(cs[cs.len() - 1].value == m);
        } else {
            let k = choose|k: int| 0 <= k < t.len() && (#[trigger] t[k]).value == m;
            assert(cs[k] == t[k]);
        }
    }
}

/// Law: a non-continuous feature is read with the value that its line
/// reports as the current value; its maximum is the largest of its named
/// values, or the value itself when it has none.  The control carries the
/// feature's code, key, title, kind and named values and is writable.
pub proof fn law_noncontinuous_line_read(code: u8, value: u16)
    requires
        spec_feature_definition(code) is Some,
    ensures
        spec_parse_vcp_line(noncontinuous_line(code, value)) matches Some(c) && {
            let d = spec_feature_definition(code).unwrap();
            let cs = spec_choices(code);
            &&& c.code == code
            &&& c.key == d.key@
            &&& c.title == d.title@
            &&& c.kind == d.kind
            &&& c.current == value
            &&& c.writable
            &&& c.choices == cs
            &&& cs.len() == 0 ==> c.maximum == value
            &&& cs.len() > 0 ==> exists|k: int|
                0 <= k < cs.len() && (#[trigger] cs[k]).value == c.maximum
            &&& forall|k: int| 0 <= k < cs.len() ==> (#[trigger] cs[k]).value <= c.maximum
        },
{
    reveal_strlit("VCP ");
    reveal_strlit(" NC ");
    reveal_strlit("VCP");
    reveal_strlit("NC");
    reveal_strlit("C");
    reveal_strlit("SNC");
    reveal_strlit("XNC");
    let line = noncontinuous_line(code, value);
    let w0 = "VCP"@;
    let w1 = hex2(code);
    let w2 = "NC"@;
    let w3 = decimal(value as nat);
    lemma_hex2(code);
    lemma_decimal(value as nat);
    let a1 = w0 + seq![' '] + w1;
    let a2 = a1 + seq![' '] + w2;
    let a3 = a2 + seq![' '] + w3;
    assert(line =~= a3);
    assert forall|i: int| 0 <= i < w0.len() implies !is_ws(#[trigger] w0[i]) by {}
    assert forall|i: int| 0 <= i < w1.len() implies !is_ws(#[trigger] w1[i]) by {
        assert(is_hex_digit(w1[i]));
    }
    assert forall|i: int| 0 <= i < w2.len() implies !is_ws(#[trigger] w2[i]) by {}
    assert forall|i: int| 0 <= i < w3.len() implies !is_ws(#[trigger] w3[i]) by {
        assert(is_digit(w3[i]));
    }
    lemma_split_single(w0, None);
    lemma_split_append(w0, ' ', w1, None);
    lemma_split_append(a1, ' ', w2, None);
    lemma_split_append(a2, ' ', w3, None);
    let fields = seq![w0, w1, w2, w3];
    assert(split_by(line, None) =~= fields);
    assert forall|i: int| 0 <= i < fields.len() implies (#[trigger] fields[i]).len() > 0 by {}
    lemma_nonempty_all(fields);
    assert(words(line) == fields);
    assert(w1.take(2)[1] == w1[1]);
    assert(!starts_with(w1, seq!['0', 'x']));
    assert(strip_repeated(w1, seq!['0', 'x']) == w1);
    lemma_parse_decimal_field(value);
    assert(fields.skip(3) =~= seq![w3]);
    assert(seq![w3].last() == w3);
    assert(seq![w3].drop_last() =~= Seq::<Seq<char>>::empty());
    assert(parse_numbers(Seq::<Seq<char>>::empty()) == Seq::<u16>::empty());
    assert(parse_numbers(seq![w3]) =~= seq![value]);
    assert(fields[0] == "VCP"@);
    assert(fields[1] == w1);
    assert(fields[2] == "NC"@);
    assert(w2 != "C"@);
    lemma_max_choice(spec_choices(code));
}

/// Law: a write is refused, and how.  A feature that is not a safe one is
/// unsupported; a monitor id that no monitor has is missing; a monitor with
/// no control of that code, or whose first one is not writable, does not
/// support the feature; a value above that control's maximum, or equal to
/// none of its choices when it has some, is out of range, reported with
/// the control's maximum.
pub proof fn law_refused_writes(
    st: ServiceStateView,
    id: Seq<char>,
    code: u8,
    value: u16,
    mi: int,
    ci: int,
)
    ensures
        spec_feature_definition(code) is None ==> spec_plan_write(st, id, code, value) == Err::<
            WriteRequest,
            ManagerErrorView,
        >(ManagerErrorView::Unsupported { monitor_id: id, code }),
        spec_feature_definition(code) is Some && (forall|j: int|
            0 <= j < st.monitors.len() ==> (#[trigger] st.monitors[j]).id != id) ==> spec_plan_write(
            st,
            id,
            code,
            value,
        ) == Err::<WriteRequest, ManagerErrorView>(ManagerErrorView::MissingMonitor(id)),
        spec_feature_definition(code) is Some && first_with_id(st.monitors, id, mi) && (forall|j: int|
            0 <= j < st.monitors[mi].controls.len() ==> (#[trigger] st.monitors[mi].controls[j]).code
                != code) ==> spec_plan_write(st, id, code, value) == Err::<
            WriteRequest,
            ManagerErrorView,
        >(ManagerErrorView::Unsupported { monitor_id: id, code }),
        spec_feature_definition(code) is Some && first_with_id(st.monitors, id, mi)
            && first_with_code(st.monitors[mi].controls, code, ci)
            && !st.monitors[mi].controls[ci].writable ==> spec_plan_write(st, id, code, value)
            == Err::<WriteRequest, ManagerErrorView>(
            ManagerErrorView::Unsupported { monitor_id: id, code },
        ),
        spec_feature_definition(code) is Some && first_with_id(st.monitors, id, mi)
            && first_with_code(st.monitors[mi].controls, code, ci)
            && st.monitors[mi].controls[ci].writable && (value
            > st.monitors[mi].controls[ci].maximum || (st.monitors[mi].controls[ci].choices.len() > 0
            && forall|k: int|
            0 <= k < st.monitors[mi].controls[ci].choices.len()
                ==> (#[trigger] st.monitors[mi].controls[ci].choices[k]).value != value))
            ==> spec_plan_write(st, id, code, value) == Err::<WriteRequest, ManagerErrorView>(
            ManagerErrorView::OutOfRange {
                code,
                value,
                maximum: st.monitors[mi].controls[ci].maximum,
            },
        ),
{
    if forall|j: int| 0 <= j < st.monitors.len() ==> (#[trigger] st.monitors[j]).id != id {
        lemma_first_index_none(st.monitors, has_id(id));
    }
    if first_with_id(st.monitors, id, mi) {
        lemma_first_index_at(st.monitors, has_id(id), mi);
        let cs = st.monitors[mi].controls;
        if forall|j: int| 0 <= j < cs.len() ==> (#[trigger] cs[j]).code != code {
            lemma_first_index_none(cs, has_code(code));
        }
        if first_with_code(cs, code, ci) {
            lemma_first_index_at(cs, has_code(code), ci);
        }
    }
}

/// Law: a read-back that failed, or that concerns a monitor or a control
/// that is gone, leaves the state exactly as it was; a backend failure is
/// passed on as it came, a missing monitor is reported missing, and a
/// missing control is reported unsupported.
pub proof fn law_failed_readback_changes_nothing(
    st: ServiceStateView,
    id: Seq<char>,
    code: u8,
    outcome: Result<ControlView, BackendErrorView>,
    mi: int,
)
    ensures
        outcome matches Err(e) ==> spec_apply_readback(st, id, code, outcome) == (Err::<
            (),
            ManagerErrorView,
        >(ManagerErrorView::Backend(e)), st),
        outcome is Ok && (forall|j: int|
            0 <= j < st.monitors.len() ==> (#[trigger] st.monitors[j]).id != id)
            ==> spec_apply_readback(st, id, code, outcome) == (Err::<(), ManagerErrorView>(
            ManagerErrorView::MissingMonitor(id),
        ), st),
        outcome is Ok && first_with_id(st.monitors, id, mi) && (forall|j: int|
            0 <= j < st.monitors[mi].controls.len() ==> (#[trigger] st.monitors[mi].controls[j]).code
                != code) ==> spec_apply_readback(st, id, code, outcome) == (Err::<
            (),
            ManagerErrorView,
        >(ManagerErrorView::Unsupported { monitor_id: id, code }), st),
{
    if forall|j: int| 0 <= j < st.monitors.len() ==> (#[trigger] st.monitors[j]).id != id {
        lemma_first_index_none(st.monitors, has_id(id));
    }
    if first_with_id(st.monitors, id, mi) {
        lemma_first_index_at(st.monitors, has_id(id), mi);
        let cs = st.monitors[mi].controls;
        if forall|j: int| 0 <= j < cs.len() ==> (#[trigger] cs[j]).code != code {
            lemma_first_index_none(cs, has_code(code));
        }
    }
}

proof fn lemma_no_targets(ms: Seq<MonitorView>, percent: u16)
    requires
        forall|i: int| 0 <= i < ms.len() ==> control_of(#[trigger] ms[i], BRIGHTNESS) is None,
    ensures
        brightness_targets(ms, percent).len() == 0,
    decreases ms.len(),
{
    if ms.len() > 0 {
        let t = ms.drop_last();
        assert forall|i: int| 0 <= i < t.len() implies control_of(#[trigger] t[i], BRIGHTNESS) is None by {
            assert(t[i] == ms[i]);
        }
        lemma_no_targets(t, percent);
        assert(control_of(ms[ms.len() - 1], BRIGHTNESS) is None);
    }
}

/// Law: the combined brightness is refused above 100 percent, reported as
/// out of range with a maximum of 100, and, for any lower percentage, when
/// no monitor has a brightness control, reported as unsupported by all
/// monitors.
pub proof fn law_all_brightness_refused(st: ServiceStateView, percent: u16)
    ensures
        percent > 100 ==> spec_plan_all_brightness(st, percent) == Err::<
            Seq<(Seq<char>, u16)>,
            ManagerErrorView,
        >(ManagerErrorView::OutOfRange { code: BRIGHTNESS, value: percent, maximum: 100 }),
        percent <= 100 && (forall|i: int|
            0 <= i < st.monitors.len() ==> control_of(#[trigger] st.monitors[i], BRIGHTNESS) is None)
            ==> spec_plan_all_brightness(st, percent) == Err::<
            Seq<(Seq<char>, u16)>,
            ManagerErrorView,
        >(ManagerErrorView::Unsupported { monitor_id: "all monitors"@, code: BRIGHTNESS }),
{
    if forall|i: int|
        0 <= i < st.monitors.len() ==> control_of(#[trigger] st.monitors[i], BRIGHTNESS) is None {
        lemma_no_targets(st.monitors, percent);
    }
}

} // verus!
