//! Character-sequence utilities with the semantics of the standard string
//! operations the parsers rely on (`trim`, `lines`, `split`,
//! `split_whitespace`, `strip_prefix`, integer parsing and formatting).
//!
//! All work is done on `Vec<char>`, whose view is the same `Seq<char>` as the
//! view of the `&str` or `String` it was taken from.
use vstd::prelude::*;

verus! {

// ---------------------------------------------------------------------------
// Specifications
// ---------------------------------------------------------------------------
/// Unicode `White_Space`, the property behind `char::is_whitespace`.
pub open spec fn is_ws(c: char) -> bool {
    ||| ('\t' <= c && c <= '\r')
    ||| c == ' '
    ||| c == '\u{85}'
    ||| c == '\u{A0}'
    ||| c == '\u{1680}'
    ||| ('\u{2000}' <= c && c <= '\u{200A}')
    ||| c == '\u{2028}'
    ||| c == '\u{2029}'
    ||| c == '\u{202F}'
    ||| c == '\u{205F}'
    ||| c == '\u{3000}'
}

/// ASCII hexadecimal digit (`char::is_ascii_hexdigit`).
pub open spec fn is_hex_digit(c: char) -> bool {
    ('0' <= c && c <= '9') || ('a' <= c && c <= 'f') || ('A' <= c && c <= 'F')
}

/// ASCII decimal digit (`char::is_ascii_digit`).
pub open spec fn is_digit(c: char) -> bool {
    '0' <= c && c <= '9'
}

/// A set of characters to trim away.
#[derive(Clone, Copy, PartialEq, Eq, Structural)]
pub enum Trimmed {
    /// White space.
    Space,
    /// Everything but hexadecimal digits and `x`.
    NonNumber,
}

/// Whether `c` is trimmed away under `t`.
pub open spec fn trimmed_away(c: char, t: Trimmed) -> bool {
    match t {
        Trimmed::Space => is_ws(c),
        Trimmed::NonNumber => !is_hex_digit(c) && c != 'x',
    }
}

/// `s` with leading characters of class `t` removed.
pub open spec fn trim_start_by(s: Seq<char>, t: Trimmed) -> Seq<char>
    decreases s.len(),
{
    if s.len() > 0 && trimmed_away(s[0], t) {
        trim_start_by(s.drop_first(), t)
    } else {
        s
    }
}

/// `s` with trailing characters of class `t` removed.
pub open spec fn trim_end_by(s: Seq<char>, t: Trimmed) -> Seq<char>
    decreases s.len(),
{
    if s.len() > 0 && trimmed_away(s.last(), t) {
        trim_end_by(s.drop_last(), t)
    } else {
        s
    }
}

/// `s` with leading and trailing characters of class `t` removed
/// (`str::trim_matches`).
pub open spec fn trim_by(s: Seq<char>, t: Trimmed) -> Seq<char> {
    trim_end_by(trim_start_by(s, t), t)
}

/// `s` with leading and trailing white space removed (`str::trim`).
pub open spec fn trim(s: Seq<char>) -> Seq<char> {
    trim_by(s, Trimmed::Space)
}

/// Whether `x` separates pieces: the character `c` for `Some(c)`, any white
/// space for `None`.
pub open spec fn is_sep(x: char, sep: Option<char>) -> bool {
    match sep {
        Some(c) => x == c,
        None => is_ws(x),
    }
}

/// The pieces of `s` between separators, empty pieces included
/// (`str::split`); there is always at least one piece.
pub open spec fn split_by(s: Seq<char>, sep: Option<char>) -> Seq<Seq<char>>
    decreases s.len(),
{
    if s.len() == 0 {
        seq![Seq::<char>::empty()]
    } else {
        let p = split_by(s.drop_last(), sep);
        if is_sep(s.last(), sep) {
            p.push(Seq::<char>::empty())
        } else {
            p.update(p.len() - 1, p.last().push(s.last()))
        }
    }
}

/// The non-empty members of `ps`, in order.
pub open spec fn nonempty(ps: Seq<Seq<char>>) -> Seq<Seq<char>>
    decreases ps.len(),
{
    if ps.len() == 0 {
        ps
    } else if ps.last().len() > 0 {
        nonempty(ps.drop_last()).push(ps.last())
    } else {
        nonempty(ps.drop_last())
    }
}

/// The white-space separated words of `s` (`str::split_whitespace`).
pub open spec fn words(s: Seq<char>) -> Seq<Seq<char>> {
    nonempty(split_by(s, None))
}

/// `p` without one trailing carriage return.
pub open spec fn strip_cr(p: Seq<char>) -> Seq<char> {
    if p.len() > 0 && p.last() == '\r' {
        p.drop_last()
    } else {
        p
    }
}

/// The lines of `s` (`str::lines`): pieces ended by `\n` or `\r\n`; the last
/// line needs no terminator, and an empty `s` has no lines.
pub open spec fn lines(s: Seq<char>) -> Seq<Seq<char>> {
    if s.len() == 0 {
        Seq::empty()
    } else {
        let parts = split_by(s, Some('\n'));
        let ended = parts.drop_last().map_values(|p: Seq<char>| strip_cr(p));
        if s.last() == '\n' {
            ended
        } else {
            ended.push(parts.last())
        }
    }
}

/// `s` begins with `p`.
pub open spec fn starts_with(s: Seq<char>, p: Seq<char>) -> bool {
    p.len() <= s.len() && s.take(p.len() as int) == p
}

/// `s` without the prefix `p`, when it has it (`str::strip_prefix`).
pub open spec fn strip_prefix(s: Seq<char>, p: Seq<char>) -> Option<Seq<char>> {
    if starts_with(s, p) {
        Some(s.skip(p.len() as int))
    } else {
        None
    }
}

/// The members of `ps` joined with `sep` between them (`[T]::join`).
pub open spec fn join(ps: Seq<Seq<char>>, sep: Seq<char>) -> Seq<char>
    decreases ps.len(),
{
    if ps.len() == 0 {
        Seq::empty()
    } else if ps.len() == 1 {
        ps[0]
    } else {
        join(ps.drop_last(), sep) + sep + ps.last()
    }
}

/// The value of `c` as a digit in base `radix` (`char::to_digit`), for a
/// radix of at most 36.
pub open spec fn digit_of(c: char, radix: nat) -> Option<nat> {
    let v: int = if '0' <= c && c <= '9' {
        c as int - '0' as int
    } else if 'a' <= c && c <= 'z' {
        c as int - 'a' as int + 10
    } else if 'A' <= c && c <= 'Z' {
        c as int - 'A' as int + 10
    } else {
        36
    };
    if v < radix {
        Some(v as nat)
    } else {
        None
    }
}

/// Every member of `d` is a digit in base `radix`.
pub open spec fn all_digits(d: Seq<char>, radix: nat) -> bool {
    forall|i: int| 0 <= i < d.len() ==> (#[trigger] digit_of(d[i], radix)) is Some
}

/// The number written by the digits `d` in base `radix`, most significant
/// first.
pub open spec fn digits_value(d: Seq<char>, radix: nat) -> nat
    decreases d.len(),
{
    if d.len() == 0 {
        0
    } else {
        digits_value(d.drop_last(), radix) * radix + match digit_of(d.last(), radix) {
            Some(v) => v,
            None => 0,
        }
    }
}

/// The number that an unsigned integer type's `from_str_radix` reads from
/// `s`: an optional `+` and at least one digit, with no bound applied yet.
pub open spec fn parse_unsigned(s: Seq<char>, radix: nat) -> Option<nat> {
    let d = if s.len() > 0 && s[0] == '+' {
        s.drop_first()
    } else {
        s
    };
    if d.len() > 0 && all_digits(d, radix) {
        Some(digits_value(d, radix))
    } else {
        None
    }
}

/// `parse_unsigned`, failing as the typed parse does when the value exceeds
/// the type's maximum `max`.
pub open spec fn parse_bounded(s: Seq<char>, radix: nat, max: nat) -> Option<nat> {
    match parse_unsigned(s, radix) {
        Some(v) => if v <= max {
            Some(v)
        } else {
            None
        },
        None => None,
    }
}

/// The digit characters, lower case (`0123456789abcdef`).
pub open spec fn digit_chars() -> Seq<char> {
    seq!['0', '1', '2', '3', '4', '5', '6', '7', '8', '9', 'a', 'b', 'c', 'd', 'e', 'f']
}

/// The decimal representation of `n` (`Display` of an unsigned integer).
pub open spec fn decimal(n: nat) -> Seq<char>
    decreases n,
{
    if n < 10 {
        seq![digit_chars()[n as int]]
    } else {
        decimal(n / 10).push(digit_chars()[(n % 10) as int])
    }
}

/// The two lower-case hexadecimal digits of `b` (`format!("{:02x}", b)`).
pub open spec fn hex2(b: u8) -> Seq<char> {
    seq![digit_chars()[(b / 16) as int], digit_chars()[(b % 16) as int]]
}

/// The views of a sequence of character vectors.
pub open spec fn views(vs: Seq<Vec<char>>) -> Seq<Seq<char>> {
    vs.map_values(|v: Vec<char>| v@)
}

/// The views of a sequence of strings.
pub open spec fn string_views(vs: Seq<String>) -> Seq<Seq<char>> {
    vs.map_values(|v: String| v@)
}

/// The index of the first member of `s` that satisfies `p`.
pub open spec fn first_index<A>(s: Seq<A>, p: spec_fn(A) -> bool) -> Option<int>
    decreases s.len(),
{
    if s.len() == 0 {
        None
    } else if p(s[0]) {
        Some(0)
    } else {
        match first_index(s.drop_first(), p) {
            Some(i) => Some(i + 1),
            None => None,
        }
    }
}

/// Selects the character `c`.
pub open spec fn is_char(c: char) -> spec_fn(char) -> bool {
    |x: char| x == c
}

/// Selects the characters that are not ASCII digits.
pub open spec fn non_digit() -> spec_fn(char) -> bool {
    |x: char| !is_digit(x)
}

/// The ASCII digits at the start of `s` (`take_while(is_ascii_digit)`).
pub open spec fn leading_digits(s: Seq<char>) -> Seq<char> {
    match first_index(s, non_digit()) {
        Some(k) => s.take(k),
        None => s,
    }
}

/// `s` with every leading repetition of the non-empty `p` removed
/// (`str::trim_start_matches`).
pub open spec fn strip_repeated(s: Seq<char>, p: Seq<char>) -> Seq<char>
    decreases s.len(),
{
    if p.len() > 0 && starts_with(s, p) {
        strip_repeated(s.skip(p.len() as int), p)
    } else {
        s
    }
}

// ---------------------------------------------------------------------------
// Lemmas
// ---------------------------------------------------------------------------
/// `first_index` is `i` when `s[i]` is the first member satisfying `p`.
pub proof fn lemma_first_index_at<A>(s: Seq<A>, p: spec_fn(A) -> bool, i: int)
    requires
        0 <= i < s.len(),
        p(s[i]),
        forall|j: int| 0 <= j < i ==> !p(#[trigger] s[j]),
    ensures
        first_index(s, p) == Some(i),
    decreases i,
{
    if i > 0 {
        let t = s.drop_first();
        assert forall|j: int| 0 <= j < i - 1 implies !p(#[trigger] t[j]) by {
            assert(t[j] == s[j + 1]);
        }
        assert(!p(s[0]));
        lemma_first_index_at(t, p, i - 1);
    }
}

/// `first_index` is `None` when no member satisfies `p`.
pub proof fn lemma_first_index_none<A>(s: Seq<A>, p: spec_fn(A) -> bool)
    requires
        forall|j: int| 0 <= j < s.len() ==> !p(#[trigger] s[j]),
    ensures
        first_index(s, p) is None,
    decreases s.len(),
{
    if s.len() > 0 {
        let t = s.drop_first();
        assert forall|j: int| 0 <= j < t.len() implies !p(#[trigger] t[j]) by {
            assert(t[j] == s[j + 1]);
        }
        assert(!p(s[0]));
        lemma_first_index_none(t, p);
    }
}

/// A found index is in range and names a member satisfying `p`, with none
/// before it.
pub proof fn lemma_first_index_props<A>(s: Seq<A>, p: spec_fn(A) -> bool)
    ensures
        first_index(s, p) matches Some(i) ==> {
            &&& 0 <= i < s.len()
            &&& p(s[i])
            &&& forall|j: int| 0 <= j < i ==> !p(#[trigger] s[j])
        },
        first_index(s, p) is None ==> forall|j: int| 0 <= j < s.len() ==> !p(#[trigger] s[j]),
    decreases s.len(),
{
    if s.len() > 0 {
        let t = s.drop_first();
        lemma_first_index_props(t, p);
        if !p(s[0]) {
            match first_index(t, p) {
                Some(k) => {
                    assert(s[k + 1] == t[k]);
                    assert forall|j: int| 0 <= j < k + 1 implies !p(#[trigger] s[j]) by {
                        if j > 0 {
                            assert(s[j] == t[j - 1]);
                        }
                    }
                },
                None => {
                    assert forall|j: int| 0 <= j < s.len() implies !p(#[trigger] s[j]) by {
                        if j > 0 {
                            assert(s[j] == t[j - 1]);
                        }
                    }
                },
            }
        }
    }
}

/// `split_by` always yields at least one piece.
pub proof fn lemma_split_len(s: Seq<char>, sep: Option<char>)
    ensures
        split_by(s, sep).len() >= 1,
    decreases s.len(),
{
    if s.len() > 0 {
        lemma_split_len(s.drop_last(), sep);
    }
}

/// The pieces of `a + b`: those of `a`, with the last of them joined to the
/// first of `b`, then the rest of `b`'s.
pub open spec fn glue(p: Seq<Seq<char>>, q: Seq<Seq<char>>) -> Seq<Seq<char>> {
    p.drop_last() + seq![p.last() + q[0]] + q.skip(1)
}

/// Splitting a concatenation glues the pieces of its parts.
pub proof fn lemma_split_concat(a: Seq<char>, b: Seq<char>, sep: Option<char>)
    ensures
        split_by(a + b, sep) == glue(split_by(a, sep), split_by(b, sep)),
    decreases b.len(),
{
    lemma_split_len(a, sep);
    lemma_split_len(b, sep);
    let p = split_by(a, sep);
    if b.len() == 0 {
        assert(a + b =~= a);
        assert(glue(p, split_by(b, sep)) =~= p);
    } else {
        let b2 = b.drop_last();
        let x = b.last();
        assert((a + b).drop_last() =~= a + b2);
        assert((a + b).last() == x);
        lemma_split_concat(a, b2, sep);
        lemma_split_len(b2, sep);
        let q2 = split_by(b2, sep);
        let r = glue(p, q2);
        let q = split_by(b, sep);
        if is_sep(x, sep) {
            assert(q == q2.push(Seq::<char>::empty()));
            assert(glue(p, q) =~= r.push(Seq::<char>::empty()));
        } else {
            assert(q == q2.update(q2.len() - 1, q2.last().push(x)));
            let target = r.update(r.len() - 1, r.last().push(x));
            if q2.len() == 1 {
                assert(p.last() + q[0] =~= (p.last() + q2[0]).push(x));
            }
            assert(glue(p, q) =~= target);
        }
    }
}

/// The lines of `a + b` are those of `a` followed by those of `b`, when `a`
/// is empty or ends its last line.
pub proof fn lemma_lines_concat(a: Seq<char>, b: Seq<char>)
    requires
        a.len() == 0 || a.last() == '\n',
    ensures
        lines(a + b) == lines(a) + lines(b),
{
    if a.len() == 0 {
        assert(a + b =~= b);
        assert(lines(a) + lines(b) =~= lines(b));
    } else if b.len() == 0 {
        assert(a + b =~= a);
        assert(lines(a) + lines(b) =~= lines(a));
    } else {
        let sep = Some('\n');
        lemma_split_concat(a, b, sep);
        lemma_split_len(a, sep);
        lemma_split_len(b, sep);
        let p = split_by(a, sep);
        let q = split_by(b, sep);
        assert(a.drop_last() + seq![a.last()] =~= a);
        assert(p == split_by(a.drop_last(), sep).push(Seq::<char>::empty()));
        assert(p.last() + q[0] =~= q[0]);
        let s = split_by(a + b, sep);
        assert(s =~= p.drop_last() + q);
        assert((a + b).last() == b.last());
        assert(s.drop_last() =~= p.drop_last() + q.drop_last());
        assert(s.last() == q.last());
        let f = |x: Seq<char>| strip_cr(x);
        assert(s.drop_last().map_values(f) =~= p.drop_last().map_values(f) + q.drop_last().map_values(
            f,
        ));
        if b.last() == '\n' {
            assert(lines(a + b) =~= lines(a) + lines(b));
        } else {
            assert(lines(a + b) =~= lines(a) + lines(b));
        }
    }
}

proof fn lemma_trim_start_at(s: Seq<char>, t: Trimmed, i: int)
    requires
        0 <= i <= s.len(),
        forall|j: int| 0 <= j < i ==> trimmed_away(#[trigger] s[j], t),
        i == s.len() || !trimmed_away(s[i], t),
    ensures
        trim_start_by(s, t) == s.skip(i),
    decreases i,
{
    if i > 0 {
        let r = s.drop_first();
        assert forall|j: int| 0 <= j < i - 1 implies trimmed_away(#[trigger] r[j], t) by {
            assert(r[j] == s[j + 1]);
        }
        if i - 1 < r.len() {
            assert(r[i - 1] == s[i]);
        }
        lemma_trim_start_at(r, t, i - 1);
        assert(r.skip(i - 1) =~= s.skip(i));
    } else {
        assert(s.skip(0) =~= s);
    }
}

proof fn lemma_trim_end_at(s: Seq<char>, t: Trimmed, k: int)
    requires
        0 <= k <= s.len(),
        forall|j: int| k <= j < s.len() ==> trimmed_away(#[trigger] s[j], t),
        k == 0 || !trimmed_away(s[k - 1], t),
    ensures
        trim_end_by(s, t) == s.take(k),
    decreases s.len() - k,
{
    if k < s.len() {
        let r = s.drop_last();
        assert forall|j: int| k <= j < r.len() implies trimmed_away(#[trigger] r[j], t) by {
            assert(r[j] == s[j]);
        }
        if k > 0 {
            assert(r[k - 1] == s[k - 1]);
        }
        lemma_trim_end_at(r, t, k);
        assert(r.take(k) =~= s.take(k));
    } else {
        assert(s.take(k) =~= s);
    }
}

proof fn lemma_digits_value_prefix(d: Seq<char>, radix: nat, i: int)
    requires
        0 <= i <= d.len(),
        radix >= 1,
    ensures
        digits_value(d, radix) >= digits_value(d.take(i), radix),
    decreases d.len(),
{
    if i < d.len() {
        let t = d.drop_last();
        lemma_digits_value_prefix(t, radix, i);
        assert(t.take(i) =~= d.take(i));
        let a = digits_value(t, radix);
        assert(a * radix >= a) by (nonlinear_arith)
            requires
                radix >= 1,
        ;
    } else {
        assert(d.take(i) =~= d);
    }
}

/// Each digit character is a hexadecimal digit, and reads back as its own
/// value in any radix above it.
pub proof fn lemma_digit_char(k: int, radix: nat)
    requires
        0 <= k < 16,
        k < radix <= 36,
    ensures
        digit_of(digit_chars()[k], radix) == Some(k as nat),
        is_hex_digit(digit_chars()[k]),
        k < 10 ==> is_digit(digit_chars()[k]),
{
    if k < 8 {
        if k < 4 {
            assert(k == 0 || k == 1 || k == 2 || k == 3);
        } else {
            assert(k == 4 || k == 5 || k == 6 || k == 7);
        }
    } else {
        if k < 12 {
            assert(k == 8 || k == 9 || k == 10 || k == 11);
        } else {
            assert(k == 12 || k == 13 || k == 14 || k == 15);
        }
    }
}

/// The decimal representation of `n` is a non-empty run of ASCII digits
/// that reads back as `n`.
pub proof fn lemma_decimal(n: nat)
    ensures
        decimal(n).len() >= 1,
        forall|i: int| 0 <= i < decimal(n).len() ==> is_digit(#[trigger] decimal(n)[i]),
        all_digits(decimal(n), 10),
        digits_value(decimal(n), 10) == n,
    decreases n,
{
    if n < 10 {
        lemma_digit_char(n as int, 10);
        let d = decimal(n);
        assert(d.drop_last() =~= Seq::<char>::empty());
        assert(digits_value(Seq::<char>::empty(), 10) == 0);
        assert(d.last() == digit_chars()[n as int]);
    } else {
        lemma_decimal(n / 10);
        lemma_digit_char((n % 10) as int, 10);
        let d = decimal(n);
        let p = decimal(n / 10);
        assert(d.drop_last() =~= p);
        assert forall|i: int| 0 <= i < d.len() implies is_digit(#[trigger] d[i]) by {
            if i < p.len() {
                assert(d[i] == p[i]);
            }
        }
        assert forall|i: int| 0 <= i < d.len() implies (#[trigger] digit_of(d[i], 10)) is Some by {
            if i < p.len() {
                assert(d[i] == p[i]);
                assert(digit_of(p[i], 10) is Some);
            }
        }
        assert(d.last() == digit_chars()[(n % 10) as int]);
        assert(digits_value(d, 10) == digits_value(p, 10) * 10 + n % 10);
        assert((n / 10) * 10 + n % 10 == n);
    }
}

/// Reading the decimal representation of a number up to `max` gives it back.
pub proof fn lemma_parse_decimal(n: nat, max: nat)
    requires
        n <= max,
    ensures
        parse_bounded(decimal(n), 10, max) == Some(n),
{
    lemma_decimal(n);
    assert(is_digit(decimal(n)[0]));
}

/// The two hexadecimal digits of `b` read back as `b`.
pub proof fn lemma_hex2(b: u8)
    ensures
        hex2(b).len() == 2,
        forall|i: int| 0 <= i < 2 ==> is_hex_digit(#[trigger] hex2(b)[i]),
        parse_bounded(hex2(b), 16, 0xff) == Some(b as nat),
{
    let h = hex2(b);
    lemma_digit_char((b / 16) as int, 16);
    lemma_digit_char((b % 16) as int, 16);
    assert(h.drop_last() =~= seq![h[0]]);
    assert(seq![h[0]].drop_last() =~= Seq::<char>::empty());
    assert forall|i: int| 0 <= i < h.len() implies (#[trigger] digit_of(h[i], 16)) is Some by {
    }
    let e = Seq::<char>::empty();
    assert(digits_value(e, 16) == 0);
    assert(seq![h[0]].last() == h[0]);
    assert(digits_value(seq![h[0]], 16) == b / 16);
    assert(h.last() == h[1]);
    assert(digits_value(h, 16) == (b / 16) * 16 + b % 16);
}

/// A piece with no separator in it splits into itself alone.
pub proof fn lemma_split_single(y: Seq<char>, sep: Option<char>)
    requires
        forall|i: int| 0 <= i < y.len() ==> !is_sep(#[trigger] y[i], sep),
    ensures
        split_by(y, sep) == seq![y],
    decreases y.len(),
{
    if y.len() > 0 {
        let t = y.drop_last();
        assert forall|i: int| 0 <= i < t.len() implies !is_sep(#[trigger] t[i], sep) by {
            assert(t[i] == y[i]);
        }
        lemma_split_single(t, sep);
        assert(!is_sep(y[y.len() - 1], sep));
        assert(t.push(y.last()) =~= y);
        assert(seq![t].update(0, y) =~= seq![y]);
    } else {
        assert(y =~= Seq::<char>::empty());
    }
}

/// Appending a separator and a piece with no separator in it adds that
/// piece to the pieces.
pub proof fn lemma_split_append(a: Seq<char>, x: char, b: Seq<char>, sep: Option<char>)
    requires
        is_sep(x, sep),
        forall|i: int| 0 <= i < b.len() ==> !is_sep(#[trigger] b[i], sep),
    ensures
        split_by(a + seq![x] + b, sep) == split_by(a, sep).push(b),
{
    lemma_split_concat(a, seq![x], sep);
    lemma_split_concat(a + seq![x], b, sep);
    lemma_split_len(a, sep);
    lemma_split_single(b, sep);
    let e = Seq::<char>::empty();
    assert(seq![x].drop_last() =~= e);
    assert(seq![x].last() == x);
    assert(split_by(e, sep) == seq![e]);
    assert(split_by(seq![x], sep) == seq![e].push(e));
    let p = split_by(a, sep);
    assert(glue(p, seq![e, e]) =~= p.push(e));
    assert(glue(p.push(e), seq![b]) =~= p.push(b));
}

/// A sequence of non-empty pieces keeps all of them.
pub proof fn lemma_nonempty_all(ps: Seq<Seq<char>>)
    requires
        forall|i: int| 0 <= i < ps.len() ==> (#[trigger] ps[i]).len() > 0,
    ensures
        nonempty(ps) == ps,
    decreases ps.len(),
{
    if ps.len() > 0 {
        let t = ps.drop_last();
        assert forall|i: int| 0 <= i < t.len() implies (#[trigger] t[i]).len() > 0 by {
            assert(t[i] == ps[i]);
        }
        lemma_nonempty_all(t);
        assert(ps.last().len() > 0);
        assert(t.push(ps.last()) =~= ps);
    }
}

// ---------------------------------------------------------------------------
// Executable operations
// ---------------------------------------------------------------------------
/// The characters of `s`.
pub fn chars_of(s: &str) -> (r: Vec<char>)
    ensures
        r@ == s@,
{
    let n = s.unicode_len();
    let mut r: Vec<char> = Vec::with_capacity(n);
    for c in it: s.chars()
        invariant
            r@ == it.seq().take(it.index() as int),
    {
        r.push(c);
    }
    r
}

/// The string whose characters are `v`.
///
/// Trusted: calls `Iterator::collect` into a `String` over `v.iter()`, which
/// std documents as concatenating the yielded characters in order.
#[verifier::external_body]
pub(crate) fn string_of(v: &Vec<char>) -> (r: String)
    ensures
        r@ == v@,
{
    v.iter().collect()
}

/// Whether `c` is Unicode white space.
pub fn is_whitespace(c: char) -> (r: bool)
    ensures
        r == is_ws(c),
{
    ('\t' <= c && c <= '\r') || c == ' ' || c == '\u{85}' || c == '\u{A0}' || c == '\u{1680}'
        || ('\u{2000}' <= c && c <= '\u{200A}') || c == '\u{2028}' || c == '\u{2029}'
        || c == '\u{202F}' || c == '\u{205F}' || c == '\u{3000}'
}

/// The characters `s[from..to]`.
pub fn slice_of(s: &Vec<char>, from: usize, to: usize) -> (r: Vec<char>)
    requires
        from <= to <= s.len(),
    ensures
        r@ == s@.subrange(from as int, to as int),
{
    let mut r: Vec<char> = Vec::new();
    let mut i = from;
    while i < to
        invariant
            from <= i <= to <= s.len(),
            r@ == s@.subrange(from as int, i as int),
        decreases to - i,
    {
        r.push(s[i]);
        i = i + 1;
        assert(r@ =~= s@.subrange(from as int, i as int));
    }
    r
}

/// Whether `c` is trimmed away under `t`.
pub fn is_trimmed_away(c: char, t: Trimmed) -> (r: bool)
    ensures
        r == trimmed_away(c, t),
{
    match t {
        Trimmed::Space => is_whitespace(c),
        Trimmed::NonNumber => !(('0' <= c && c <= '9') || ('a' <= c && c <= 'f') || ('A' <= c
            && c <= 'F')) && c != 'x',
    }
}

/// `s` with leading and trailing characters of class `t` removed.
pub fn trimmed_by(s: &Vec<char>, t: Trimmed) -> (r: Vec<char>)
    ensures
        r@ == trim_by(s@, t),
{
    let n = s.len();
    let mut lo: usize = 0;
    while lo < n && is_trimmed_away(s[lo], t)
        invariant
            lo <= n == s.len(),
            forall|j: int| 0 <= j < lo ==> trimmed_away(#[trigger] s@[j], t),
        decreases n - lo,
    {
        lo = lo + 1;
    }
    proof {
        lemma_trim_start_at(s@, t, lo as int);
    }
    let mut hi: usize = n;
    while hi > lo && is_trimmed_away(s[hi - 1], t)
        invariant
            lo <= hi <= n == s.len(),
            forall|j: int| hi <= j < n ==> trimmed_away(#[trigger] s@[j], t),
        decreases hi - lo,
    {
        hi = hi - 1;
    }
    proof {
        let u = s@.skip(lo as int);
        let k = hi - lo;
        assert forall|j: int| k <= j < u.len() implies trimmed_away(#[trigger] u[j], t) by {
            assert(u[j] == s@[j + lo]);
        }
        if k > 0 {
            assert(u[k - 1] == s@[hi - 1]);
        }
        lemma_trim_end_at(u, t, k as int);
        assert(u.take(k as int) =~= s@.subrange(lo as int, hi as int));
    }
    slice_of(s, lo, hi)
}

/// `s` with leading and trailing white space removed.
pub fn trimmed(s: &Vec<char>) -> (r: Vec<char>)
    ensures
        r@ == trim(s@),
{
    trimmed_by(s, Trimmed::Space)
}

/// The pieces of `s` between separators (see `split_by`).
pub fn split(s: &Vec<char>, sep: Option<char>) -> (r: Vec<Vec<char>>)
    ensures
        views(r@) == split_by(s@, sep),
{
    let mut parts: Vec<Vec<char>> = Vec::new();
    let mut cur: Vec<char> = Vec::new();
    let n = s.len();
    for i in 0..n
        invariant
            n == s.len(),
            views(parts@).push(cur@) == split_by(s@.take(i as int), sep),
    {
        let x = s[i];
        let is_break = match sep {
            Some(c) => x == c,
            None => is_whitespace(x),
        };
        proof {
            let t = s@.take(i + 1);
            assert(t.drop_last() =~= s@.take(i as int));
            assert(t.last() == x);
        }
        if is_break {
            let mut done: Vec<char> = Vec::new();
            std::mem::swap(&mut done, &mut cur);
            parts.push(done);
            assert(views(parts@).push(cur@) =~= split_by(s@.take(i + 1), sep));
        } else {
            let ghost before = views(parts@).push(cur@);
            cur.push(x);
            assert(views(parts@).push(cur@) =~= before.update(
                before.len() - 1,
                before.last().push(x),
            ));
        }
    }
    assert(s@.take(n as int) =~= s@);
    parts.push(cur);
    assert(views(parts@) =~= split_by(s@, sep)) by {
        assert(views(parts@) =~= views(parts@.drop_last()).push(parts@.last()@));
    }
    parts
}

/// A copy of `v`.
pub fn copy_chars(v: &Vec<char>) -> (r: Vec<char>)
    ensures
        r@ == v@,
{
    let r = slice_of(v, 0, v.len());
    assert(r@ =~= v@);
    r
}

/// The non-empty members of `ps`.
pub fn keep_nonempty(ps: &Vec<Vec<char>>) -> (r: Vec<Vec<char>>)
    ensures
        views(r@) == nonempty(views(ps@)),
{
    let mut out: Vec<Vec<char>> = Vec::new();
    let n = ps.len();
    for i in 0..n
        invariant
            n == ps.len(),
            views(out@) == nonempty(views(ps@).take(i as int)),
    {
        proof {
            let t = views(ps@).take(i + 1);
            assert(t.drop_last() =~= views(ps@).take(i as int));
            assert(t.last() == ps@[i as int]@);
        }
        if ps[i].len() > 0 {
            let c = copy_chars(&ps[i]);
            out.push(c);
            assert(views(out@) =~= views(out@.drop_last()).push(out@.last()@));
        }
    }
    assert(views(ps@).take(n as int) =~= views(ps@));
    out
}

/// The white-space separated words of `s`.
pub fn split_words(s: &Vec<char>) -> (r: Vec<Vec<char>>)
    ensures
        views(r@) == words(s@),
{
    let parts = split(s, None);
    keep_nonempty(&parts)
}

/// `p` without one trailing carriage return.
fn without_cr(p: Vec<char>) -> (r: Vec<char>)
    ensures
        r@ == strip_cr(p@),
{
    let mut p = p;
    if p.len() > 0 && p[p.len() - 1] == '\r' {
        p.pop();
    }
    p
}

/// The lines of `s` (see `lines`).
pub fn split_lines(s: &Vec<char>) -> (r: Vec<Vec<char>>)
    ensures
        views(r@) == lines(s@),
{
    if s.len() == 0 {
        let r: Vec<Vec<char>> = Vec::new();
        assert(views(r@) =~= lines(s@));
        return r;
    }
    let parts = split(s, Some('\n'));
    proof {
        lemma_split_len(s@, Some('\n'));
    }
    let ghost pv = views(parts@);
    let ghost ended = pv.drop_last().map_values(|p: Seq<char>| strip_cr(p));
    let m = parts.len() - 1;
    let mut out: Vec<Vec<char>> = Vec::new();
    for i in 0..m
        invariant
            m == parts.len() - 1,
            pv == views(parts@),
            ended == pv.drop_last().map_values(|p: Seq<char>| strip_cr(p)),
            views(out@) == ended.take(i as int),
    {
        let q = without_cr(copy_chars(&parts[i]));
        assert(pv[i as int] == parts@[i as int]@);
        assert(ended[i as int] == strip_cr(pv[i as int]));
        let ghost before = out@;
        out.push(q);
        assert(views(out@) =~= views(before).push(q@));
        assert(views(out@) =~= ended.take(i + 1));
    }
    assert(views(out@) =~= ended);
    if s[s.len() - 1] != '\n' {
        out.push(copy_chars(&parts[m]));
        assert(views(out@) =~= ended.push(pv.last()));
    }
    out
}

/// Whether `a` and `b` hold the same characters.
pub fn same_chars(a: &Vec<char>, b: &Vec<char>) -> (r: bool)
    ensures
        r == (a@ == b@),
{
    if a.len() != b.len() {
        return false;
    }
    let n = a.len();
    for i in 0..n
        invariant
            n == a.len() == b.len(),
            forall|j: int| 0 <= j < i ==> a@[j] == b@[j],
    {
        if a[i] != b[i] {
            return false;
        }
    }
    assert(a@ =~= b@);
    true
}

/// Whether `s` begins with `p`.
pub fn has_prefix(s: &Vec<char>, p: &Vec<char>) -> (r: bool)
    ensures
        r == starts_with(s@, p@),
{
    if p.len() > s.len() {
        return false;
    }
    let n = p.len();
    for i in 0..n
        invariant
            n == p.len() <= s.len(),
            forall|j: int| 0 <= j < i ==> s@[j] == p@[j],
    {
        if s[i] != p[i] {
            assert(s@.take(n as int)[i as int] != p@[i as int]);
            return false;
        }
    }
    assert(s@.take(n as int) =~= p@);
    true
}

/// `s` without the prefix `p`, when it has it.
pub fn without_prefix(s: &Vec<char>, p: &Vec<char>) -> (r: Option<Vec<char>>)
    ensures
        match r {
            Some(v) => strip_prefix(s@, p@) == Some(v@),
            None => strip_prefix(s@, p@) is None,
        },
{
    if has_prefix(s, p) {
        let rest = slice_of(s, p.len(), s.len());
        assert(rest@ =~= s@.skip(p@.len() as int));
        Some(rest)
    } else {
        None
    }
}

/// The value of `c` as a digit in base `radix`.
pub fn digit_value(c: char, radix: u32) -> (r: Option<u32>)
    requires
        radix <= 36,
    ensures
        match r {
            Some(v) => digit_of(c, radix as nat) == Some(v as nat),
            None => digit_of(c, radix as nat) is None,
        },
{
    let v: u32 = if '0' <= c && c <= '9' {
        (c as u32) - ('0' as u32)
    } else if 'a' <= c && c <= 'z' {
        (c as u32) - ('a' as u32) + 10
    } else if 'A' <= c && c <= 'Z' {
        (c as u32) - ('A' as u32) + 10
    } else {
        36
    };
    if v < radix {
        Some(v)
    } else {
        None
    }
}

/// The unsigned number in base `radix` that `s` writes, when it writes one
/// that is at most `max` (`u8`/`u16`/`u32::from_str_radix`).
pub fn parse_number_in(s: &Vec<char>, radix: u32, max: u32) -> (r: Option<u32>)
    requires
        2 <= radix <= 36,
    ensures
        match r {
            Some(v) => parse_bounded(s@, radix as nat, max as nat) == Some(v as nat),
            None => parse_bounded(s@, radix as nat, max as nat) is None,
        },
{
    let start: usize = if s.len() > 0 && s[0] == '+' {
        1
    } else {
        0
    };
    let ghost d = if s@.len() > 0 && s@[0] == '+' {
        s@.drop_first()
    } else {
        s@
    };
    assert(d =~= s@.skip(start as int));
    if start >= s.len() {
        return None;
    }
    let n = s.len();
    let mut acc: u64 = 0;
    let mut i = start;
    while i < n
        invariant
            start <= i <= n == s.len(),
            d == s@.skip(start as int),
            d == (if s@.len() > 0 && s@[0] == '+' {
                s@.drop_first()
            } else {
                s@
            }),
            2 <= radix <= 36,
            acc <= max,
            all_digits(d.take(i - start), radix as nat),
            acc == digits_value(d.take(i - start), radix as nat),
        decreases n - i,
    {
        let ghost k: int = i - start;
        match digit_value(s[i], radix) {
            None => {
                assert(d[k] == s@[i as int]);
                assert(digit_of(d[k], radix as nat) is None);
                return None;
            },
            Some(v) => {
                assert(d[k] == s@[i as int]);
                let ghost t = d.take(k + 1);
                assert(t.drop_last() =~= d.take(k));
                assert(t.last() == s@[i as int]);
                assert(acc * radix <= (max as int) * 36) by (nonlinear_arith)
                    requires
                        acc <= max,
                        radix <= 36,
                ;
                let next: u64 = acc * (radix as u64) + (v as u64);
                assert(all_digits(t, radix as nat)) by {
                    assert forall|j: int| 0 <= j < t.len() implies (#[trigger] digit_of(
                        t[j],
                        radix as nat,
                    )) is Some by {
                        if j < k {
                            assert(t[j] == d.take(k)[j]);
                        }
                    }
                }
                if next > max as u64 {
                    proof {
                        if all_digits(d, radix as nat) {
                            lemma_digits_value_prefix(d, radix as nat, k + 1);
                        }
                    }
                    return None;
                }
                acc = next;
                i = i + 1;
            },
        }
    }
    assert(d.take(n - start) =~= d);
    Some(acc as u32)
}

/// The decimal digits of `n`.
pub fn decimal_chars(n: u64) -> (r: Vec<char>)
    ensures
        r@ == decimal(n as nat),
    decreases n,
{
    if n < 10 {
        let mut r: Vec<char> = Vec::new();
        r.push(digit_char(n as u8));
        assert(r@ =~= decimal(n as nat));
        r
    } else {
        let mut r = decimal_chars(n / 10);
        r.push(digit_char((n % 10) as u8));
        r
    }
}

/// The decimal representation of `n`.
pub fn decimal_string(n: u64) -> (r: String)
    ensures
        r@ == decimal(n as nat),
{
    string_of(&decimal_chars(n))
}

/// The lower-case digit character for `d < 16`.
pub fn digit_char(d: u8) -> (c: char)
    requires
        d < 16,
    ensures
        c == digit_chars()[d as int],
{
    match d {
        0 => '0',
        1 => '1',
        2 => '2',
        3 => '3',
        4 => '4',
        5 => '5',
        6 => '6',
        7 => '7',
        8 => '8',
        9 => '9',
        10 => 'a',
        11 => 'b',
        12 => 'c',
        13 => 'd',
        14 => 'e',
        _ => 'f',
    }
}

/// The two lower-case hexadecimal digits of `b`.
pub fn hex2_chars(b: u8) -> (r: Vec<char>)
    ensures
        r@ == hex2(b),
{
    let mut r: Vec<char> = Vec::new();
    r.push(digit_char(b / 16));
    r.push(digit_char(b % 16));
    assert(r@ =~= hex2(b));
    r
}

/// The members of `ps` joined with `sep`.
pub fn join_strings(ps: &Vec<String>, sep: &str) -> (r: String)
    ensures
        r@ == join(string_views(ps@), sep@),
{
    let mut r = String::new();
    let n = ps.len();
    for i in 0..n
        invariant
            n == ps.len(),
            r@ == join(string_views(ps@).take(i as int), sep@),
    {
        let ghost t = string_views(ps@).take(i + 1);
        assert(t.drop_last() =~= string_views(ps@).take(i as int));
        if i > 0 {
            r.append(sep);
        } else {
            assert(r@ =~= Seq::<char>::empty());
        }
        r.append(ps[i].as_str());
        assert(r@ =~= join(t, sep@));
    }
    assert(string_views(ps@).take(n as int) =~= string_views(ps@));
    r
}

/// Index of the first `c` in `s`.
pub fn find_char(s: &Vec<char>, c: char) -> (r: Option<usize>)
    ensures
        match r {
            Some(i) => i < s.len() && first_index(s@, is_char(c)) == Some(i as int),
            None => first_index(s@, is_char(c)) is None,
        },
{
    let n = s.len();
    for i in 0..n
        invariant
            n == s.len(),
            forall|j: int| 0 <= j < i ==> !(is_char(c))(#[trigger] s@[j]),
    {
        if s[i] == c {
            proof {
                lemma_first_index_at(s@, is_char(c), i as int);
            }
            return Some(i);
        }
    }
    proof {
        lemma_first_index_none(s@, is_char(c));
    }
    None
}

/// The ASCII digits at the start of `s`.
pub fn leading_digits_of(s: &Vec<char>) -> (r: Vec<char>)
    ensures
        r@ == leading_digits(s@),
{
    let n = s.len();
    let mut i: usize = 0;
    while i < n && '0' <= s[i] && s[i] <= '9'
        invariant
            i <= n == s.len(),
            forall|j: int| 0 <= j < i ==> !(non_digit())(#[trigger] s@[j]),
        decreases n - i,
    {
        i = i + 1;
    }
    proof {
        if i < n {
            lemma_first_index_at(s@, non_digit(), i as int);
        } else {
            lemma_first_index_none(s@, non_digit());
            assert(s@.take(i as int) =~= s@);
        }
    }
    slice_of(s, 0, i)
}

/// `s` with every leading repetition of the non-empty `p` removed.
pub fn without_repeated_prefix(s: &Vec<char>, p: &Vec<char>) -> (r: Vec<char>)
    requires
        p.len() > 0,
    ensures
        r@ == strip_repeated(s@, p@),
{
    let mut cur = copy_chars(s);
    while has_prefix(&cur, p)
        invariant
            p.len() > 0,
            strip_repeated(cur@, p@) == strip_repeated(s@, p@),
        decreases cur.len(),
    {
        cur = slice_of(&cur, p.len(), cur.len());
    }
    cur
}

/// `dst` followed by `src`.
pub fn append_chars(dst: &mut Vec<char>, src: &Vec<char>)
    ensures
        final(dst)@ == old(dst)@ + src@,
{
    let n = src.len();
    let ghost start = dst@;
    for i in 0..n
        invariant
            n == src.len(),
            dst@ == start + src@.take(i as int),
    {
        dst.push(src[i]);
        assert(dst@ =~= start + src@.take(i + 1));
    }
    assert(src@.take(n as int) =~= src@);
}

/// The members of `ps` joined with the character `sep`.
pub fn join_chars(ps: &Vec<Vec<char>>, sep: char) -> (r: Vec<char>)
    ensures
        r@ == join(views(ps@), seq![sep]),
{
    let mut r: Vec<char> = Vec::new();
    let n = ps.len();
    for i in 0..n
        invariant
            n == ps.len(),
            r@ == join(views(ps@).take(i as int), seq![sep]),
    {
        let ghost t = views(ps@).take(i + 1);
        assert(t.drop_last() =~= views(ps@).take(i as int));
        assert(t.last() == ps@[i as int]@);
        if i > 0 {
            r.push(sep);
        } else {
            assert(r@ =~= Seq::<char>::empty());
        }
        append_chars(&mut r, &ps[i]);
        assert(r@ =~= join(t, seq![sep]));
    }
    assert(views(ps@).take(n as int) =~= views(ps@));
    r
}

} // verus!
