//! The assignment payload: a structured text blob naming the script to
//! run and the transport connection parameters.
//!
//! The format is a line-oriented subset of the usual configuration
//! syntax: `[table]` and `[table.subtable]` headers, `key = "text"` and
//! `key = 'text'` and `key = number` pairs, blank lines, and `#`
//! comment lines.  Numbers are unsigned with at most nine digits; text
//! values carry no escapes, so a value that holds one quote kind — a
//! tracing script with string literals, say — is written with the
//! other.
//! A payload that fits none of these forms is malformed, and a missing
//! required field is a configuration error: in either case the session
//! never starts.

use vstd::prelude::*;
use vstd::string::StringSliceAdditionalSpecFns;

verus! {

/// Why a payload was rejected.
#[derive(PartialEq, Eq, Structural, Clone, Copy, Debug)]
pub enum ConfigError {
    /// A line of the payload fits no accepted form.
    Malformed,
    /// A required field is absent or of the wrong kind.
    Missing,
}

/// One configuration value.
#[derive(Debug)]
pub enum ConfigValue {
    Text(Vec<u8>),
    Number(i64),
}

/// Spec-level value of a [`ConfigValue`].
pub enum ValueView {
    Text(Seq<u8>),
    Number(int),
}

impl View for ConfigValue {
    type V = ValueView;

    open spec fn view(&self) -> ValueView {
        match self {
            ConfigValue::Text(v) => ValueView::Text(v@),
            ConfigValue::Number(n) => ValueView::Number(*n as int),
        }
    }
}

/// What one line of the payload means.
pub enum LineView {
    /// Blank or a comment: carries nothing.
    Blank,
    /// A `[table]` header: keys below belong to this table.
    Header(Seq<u8>),
    /// A `key = value` pair.
    Pair(Seq<u8>, ValueView),
    /// None of the accepted forms.
    Bad,
}

/// Horizontal whitespace, including a carriage return before a line end.
pub open spec fn is_ws(b: u8) -> bool {
    b == (' ' as u8) || b == ('\t' as u8) || b == ('\r' as u8)
}

/// Index of the first `ch` in `t[pos..end)`, or `end` if there is none.
pub open spec fn spec_find_byte(t: Seq<u8>, pos: int, end: int, ch: u8) -> int
    decreases end - pos,
{
    if pos >= end {
        end
    } else if t[pos] == ch {
        pos
    } else {
        spec_find_byte(t, pos + 1, end, ch)
    }
}

/// Index of the first non-whitespace byte in `t[pos..end)`, or `end`.
pub open spec fn spec_skip_ws(t: Seq<u8>, pos: int, end: int) -> int
    decreases end - pos,
{
    if pos >= end {
        end
    } else if is_ws(t[pos]) {
        spec_skip_ws(t, pos + 1, end)
    } else {
        pos
    }
}

/// End of `t[pos..end)` with trailing whitespace dropped.
pub open spec fn spec_rtrim(t: Seq<u8>, pos: int, end: int) -> int
    decreases end - pos,
{
    if end <= pos {
        pos
    } else if is_ws(t[end - 1]) {
        spec_rtrim(t, pos, end - 1)
    } else {
        end
    }
}

/// Whether `b` is a decimal digit.
pub open spec fn is_digit(b: u8) -> bool {
    ('0' as u8) <= b <= ('9' as u8)
}

/// Whether every byte of `t[pos..end)` is a decimal digit.
pub open spec fn spec_all_digits(t: Seq<u8>, pos: int, end: int) -> bool
    decreases end - pos,
{
    if pos >= end {
        true
    } else {
        is_digit(t[pos]) && spec_all_digits(t, pos + 1, end)
    }
}

/// The number written in decimal in `t[pos..end)`.
pub open spec fn spec_digits_val(t: Seq<u8>, pos: int, end: int) -> int
    decreases end - pos,
{
    if pos >= end {
        0
    } else {
        spec_digits_val(t, pos, end - 1) * 10 + (t[end - 1] - ('0' as u8))
    }
}

/// Largest number of digits accepted in a numeric value.
pub const MAX_NUMBER_DIGITS: usize = 9;

/// The meaning of the line `t[pos..end)`.
pub open spec fn spec_classify(t: Seq<u8>, pos: int, end: int) -> LineView {
    let a = spec_skip_ws(t, pos, end);
    let b = spec_rtrim(t, a, end);
    if a >= b {
        LineView::Blank
    } else if t[a] == ('#' as u8) {
        LineView::Blank
    } else if t[a] == ('[' as u8) {
        if t[b - 1] == (']' as u8) {
            let ia = spec_skip_ws(t, a + 1, b - 1);
            let ib = spec_rtrim(t, ia, b - 1);
            if ia < ib {
                LineView::Header(t.subrange(ia, ib))
            } else {
                LineView::Bad
            }
        } else {
            LineView::Bad
        }
    } else {
        let eq = spec_find_byte(t, a, b, '=' as u8);
        if eq >= b {
            LineView::Bad
        } else {
            let kend = spec_rtrim(t, a, eq);
            if a >= kend {
                LineView::Bad
            } else {
                let key = t.subrange(a, kend);
                let va = spec_skip_ws(t, eq + 1, b);
                if va >= b {
                    LineView::Bad
                } else if t[va] == ('"' as u8) {
                    if b - va >= 2 && t[b - 1] == ('"' as u8) && spec_find_byte(
                        t,
                        va + 1,
                        b - 1,
                        '"' as u8,
                    ) == b - 1 {
                        LineView::Pair(key, ValueView::Text(t.subrange(va + 1, b - 1)))
                    } else {
                        LineView::Bad
                    }
                } else if t[va] == ('\'' as u8) {
                    if b - va >= 2 && t[b - 1] == ('\'' as u8) && spec_find_byte(
                        t,
                        va + 1,
                        b - 1,
                        '\'' as u8,
                    ) == b - 1 {
                        LineView::Pair(key, ValueView::Text(t.subrange(va + 1, b - 1)))
                    } else {
                        LineView::Bad
                    }
                } else if spec_all_digits(t, va, b) && b - va <= MAX_NUMBER_DIGITS {
                    LineView::Pair(key, ValueView::Number(spec_digits_val(t, va, b)))
                } else {
                    LineView::Bad
                }
            }
        }
    }
}

/// `spec_find_byte` stays within `[pos, end]`.
proof fn lemma_find_byte_bounds(t: Seq<u8>, pos: int, end: int, ch: u8)
    requires
        pos <= end,
    ensures
        pos <= spec_find_byte(t, pos, end, ch) <= end,
    decreases end - pos,
{
    if pos < end && t[pos] != ch {
        lemma_find_byte_bounds(t, pos + 1, end, ch);
    }
}

/// The value under `key` in table `table`, scanning lines from `pos`.
///
/// `active` says whether the table the scan currently stands in is the
/// requested one.  The first matching pair wins; a bad line reached
/// before a match makes the payload malformed; reaching the end without
/// a match finds nothing.
pub open spec fn spec_lookup(
    t: Seq<u8>,
    pos: int,
    active: bool,
    table: Seq<u8>,
    key: Seq<u8>,
) -> Result<Option<ValueView>, ConfigError>
    decreases t.len() - pos,
    via spec_lookup_decreases
{
    if pos >= t.len() {
        Ok(None)
    } else {
        let e = spec_find_byte(t, pos, t.len() as int, '\n' as u8);
        let next = if e < t.len() {
            e + 1
        } else {
            t.len() as int
        };
        match spec_classify(t, pos, e) {
            LineView::Blank => spec_lookup(t, next, active, table, key),
            LineView::Header(h) => spec_lookup(t, next, h == table, table, key),
            LineView::Pair(k, v) => if active && k == key {
                Ok(Some(v))
            } else {
                spec_lookup(t, next, active, table, key)
            },
            LineView::Bad => Err(ConfigError::Malformed),
        }
    }
}

#[via_fn]
proof fn spec_lookup_decreases(t: Seq<u8>, pos: int, active: bool, table: Seq<u8>, key: Seq<u8>) {
    if pos < t.len() {
        lemma_find_byte_bounds(t, pos, t.len() as int, '\n' as u8);
    }
}

/// The value under `key` in table `table` of the whole payload; keys
/// above the first header belong to the unnamed root table.
pub open spec fn spec_config_lookup(t: Seq<u8>, table: Seq<u8>, key: Seq<u8>) -> Result<
    Option<ValueView>,
    ConfigError,
> {
    spec_lookup(t, 0, table == Seq::<u8>::empty(), table, key)
}

/// Whether two byte strings hold the same bytes.
pub fn bytes_eq(a: &[u8], b: &[u8]) -> (r: bool)
    ensures
        r == (a@ == b@),
{
    if a.len() != b.len() {
        proof {
            assert(a@.len() != b@.len());
        }
        return false;
    }
    let mut i: usize = 0;
    while i < a.len()
        invariant
            a@.len() == b@.len(),
            0 <= i <= a@.len(),
            forall|j: int| #![auto] 0 <= j < i ==> a@[j] == b@[j],
        decreases a@.len() - i,
    {
        if a[i] != b[i] {
            return false;
        }
        i = i + 1;
    }
    proof {
        assert(a@ =~= b@);
    }
    true
}

/// Index of the first `ch` in `t[pos..end)`, or `end` if there is none.
fn find_byte(t: &[u8], pos: usize, end: usize, ch: u8) -> (r: usize)
    requires
        pos <= end <= t@.len(),
    ensures
        r == spec_find_byte(t@, pos as int, end as int, ch),
        pos <= r <= end,
{
    let mut i: usize = pos;
    while i < end
        invariant
            pos <= i <= end <= t@.len(),
            spec_find_byte(t@, pos as int, end as int, ch) == spec_find_byte(
                t@,
                i as int,
                end as int,
                ch,
            ),
        decreases end - i,
    {
        if t[i] == ch {
            return i;
        }
        i = i + 1;
    }
    end
}

/// Index of the first non-whitespace byte in `t[pos..end)`, or `end`.
fn skip_ws(t: &[u8], pos: usize, end: usize) -> (r: usize)
    requires
        pos <= end <= t@.len(),
    ensures
        r == spec_skip_ws(t@, pos as int, end as int),
        pos <= r <= end,
{
    let mut i: usize = pos;
    while i < end
        invariant
            pos <= i <= end <= t@.len(),
            spec_skip_ws(t@, pos as int, end as int) == spec_skip_ws(t@, i as int, end as int),
        decreases end - i,
    {
        if !(t[i] == (' ' as u8) || t[i] == ('\t' as u8) || t[i] == ('\r' as u8)) {
            return i;
        }
        i = i + 1;
    }
    end
}

/// End of `t[pos..end)` with trailing whitespace dropped.
fn rtrim(t: &[u8], pos: usize, end: usize) -> (r: usize)
    requires
        pos <= end <= t@.len(),
    ensures
        r == spec_rtrim(t@, pos as int, end as int),
        pos <= r <= end,
{
    let mut e: usize = end;
    while e > pos
        invariant
            pos <= e <= end <= t@.len(),
            spec_rtrim(t@, pos as int, end as int) == spec_rtrim(t@, pos as int, e as int),
        decreases e,
    {
        if !(t[e - 1] == (' ' as u8) || t[e - 1] == ('\t' as u8) || t[e - 1] == ('\r' as u8)) {
            return e;
        }
        e = e - 1;
    }
    pos
}

/// Whether every byte of `t[pos..end)` is a decimal digit.
fn all_digits(t: &[u8], pos: usize, end: usize) -> (r: bool)
    requires
        pos <= end <= t@.len(),
    ensures
        r == spec_all_digits(t@, pos as int, end as int),
{
    let mut i: usize = pos;
    while i < end
        invariant
            pos <= i <= end <= t@.len(),
            spec_all_digits(t@, pos as int, end as int) == spec_all_digits(
                t@,
                i as int,
                end as int,
            ),
        decreases end - i,
    {
        if !(('0' as u8) <= t[i] && t[i] <= ('9' as u8)) {
            return false;
        }
        i = i + 1;
    }
    true
}

/// Powers of ten, for the digit-accumulation bound.
spec fn pow10(n: nat) -> int
    decreases n,
{
    if n == 0 {
        1
    } else {
        10 * pow10((n - 1) as nat)
    }
}

proof fn lemma_pow10_le(a: nat, b: nat)
    requires
        a <= b,
    ensures
        pow10(a) <= pow10(b),
    decreases b,
{
    if a < b {
        lemma_pow10_le(a, (b - 1) as nat);
        assert(pow10(b) == 10 * pow10((b - 1) as nat));
        assert(pow10(a) >= 1) by {
            lemma_pow10_pos(a);
        }
    }
}

proof fn lemma_pow10_pos(n: nat)
    ensures
        pow10(n) >= 1,
    decreases n,
{
    if n > 0 {
        lemma_pow10_pos((n - 1) as nat);
    }
}

/// Reads the decimal number in `t[pos..end)`; at most
/// `MAX_NUMBER_DIGITS` digits, so the value fits comfortably.
fn digits_val(t: &[u8], pos: usize, end: usize) -> (r: i64)
    requires
        pos <= end <= t@.len(),
        spec_all_digits(t@, pos as int, end as int),
        end - pos <= MAX_NUMBER_DIGITS,
    ensures
        r == spec_digits_val(t@, pos as int, end as int),
        0 <= r < 1000000000,
{
    proof {
        reveal_with_fuel(pow10, 10);
        assert(pow10(9) == 1000000000);
    }
    let mut acc: i64 = 0;
    let mut i: usize = pos;
    while i < end
        invariant
            pos <= i <= end <= t@.len(),
            spec_all_digits(t@, pos as int, end as int),
            end - pos <= MAX_NUMBER_DIGITS,
            acc == spec_digits_val(t@, pos as int, i as int),
            0 <= acc < pow10((i - pos) as nat),
        decreases end - i,
    {
        proof {
            lemma_all_digits_at(t@, pos as int, end as int, i as int);
            lemma_pow10_le(((i + 1 - pos)) as nat, 9);
            reveal_with_fuel(pow10, 10);
        }
        let d = t[i] - ('0' as u8);
        acc = acc * 10 + (d as i64);
        i = i + 1;
    }
    proof {
        lemma_pow10_le(((i - pos)) as nat, 9);
        reveal_with_fuel(pow10, 10);
    }
    acc
}

/// Every position of an all-digit range holds a digit.
proof fn lemma_all_digits_at(t: Seq<u8>, pos: int, end: int, i: int)
    requires
        pos <= i < end,
        spec_all_digits(t, pos, end),
    ensures
        is_digit(t[i]),
    decreases i - pos,
{
    if i > pos {
        lemma_all_digits_at(t, pos + 1, end, i);
    }
}

/// The value under `key` in table `table`, scanning lines from `pos`:
/// the executable side of [`spec_lookup`].
fn lookup(t: &[u8], pos: usize, active: bool, table: &[u8], key: &[u8]) -> (r: Result<
    Option<ConfigValue>,
    ConfigError,
>)
    requires
        pos <= t@.len(),
    ensures
        match r {
            Ok(Some(v)) => spec_lookup(t@, pos as int, active, table@, key@) == Ok::<
                Option<ValueView>,
                ConfigError,
            >(Some(v@)),
            Ok(None) => spec_lookup(t@, pos as int, active, table@, key@) == Ok::<
                Option<ValueView>,
                ConfigError,
            >(None),
            Err(e) => spec_lookup(t@, pos as int, active, table@, key@) == Err::<
                Option<ValueView>,
                ConfigError,
            >(e),
        },
    decreases t@.len() - pos,
{
    if pos >= t.len() {
        return Ok(None);
    }
    let len = t.len();
    let e = find_byte(t, pos, len, '\n' as u8);
    let next = if e < len {
        e + 1
    } else {
        len
    };
    let ghost cls = spec_classify(t@, pos as int, e as int);

    let a = skip_ws(t, pos, e);
    let b = rtrim(t, a, e);
    if a >= b {
        proof {
            assert(cls is Blank);
        }
        lookup(t, next, active, table, key)
    } else if t[a] == ('#' as u8) {
        proof {
            assert(cls is Blank);
        }
        lookup(t, next, active, table, key)
    } else if t[a] == ('[' as u8) {
        if t[b - 1] == (']' as u8) {
            let ia = skip_ws(t, a + 1, b - 1);
            let ib = rtrim(t, ia, b - 1);
            if ia < ib {
                let header = vstd::slice::slice_subrange(t, ia, ib);
                proof {
                    assert(cls == LineView::Header(t@.subrange(ia as int, ib as int)));
                }
                let now_active = bytes_eq(header, table);
                lookup(t, next, now_active, table, key)
            } else {
                proof {
                    assert(cls is Bad);
                }
                Err(ConfigError::Malformed)
            }
        } else {
            proof {
                assert(cls is Bad);
            }
            Err(ConfigError::Malformed)
        }
    } else {
        let eq = find_byte(t, a, b, '=' as u8);
        if eq >= b {
            proof {
                assert(cls is Bad);
            }
            Err(ConfigError::Malformed)
        } else {
            let kend = rtrim(t, a, eq);
            if a >= kend {
                proof {
                    assert(cls is Bad);
                }
                Err(ConfigError::Malformed)
            } else {
                let line_key = vstd::slice::slice_subrange(t, a, kend);
                let va = skip_ws(t, eq + 1, b);
                if va >= b {
                    proof {
                        assert(cls is Bad);
                    }
                    Err(ConfigError::Malformed)
                } else if t[va] == ('"' as u8) {
                    if b - va >= 2 && t[b - 1] == ('"' as u8) && find_byte(t, va + 1, b - 1, '"' as u8)
                        == b - 1 {
                        proof {
                            assert(cls == LineView::Pair(
                                t@.subrange(a as int, kend as int),
                                ValueView::Text(t@.subrange(va as int + 1, b as int - 1)),
                            ));
                        }
                        if active && bytes_eq(line_key, key) {
                            let text = vstd::slice::slice_subrange(t, va + 1, b - 1);
                            Ok(Some(ConfigValue::Text(vstd::slice::slice_to_vec(text))))
                        } else {
                            lookup(t, next, active, table, key)
                        }
                    } else {
                        proof {
                            assert(cls is Bad);
                        }
                        Err(ConfigError::Malformed)
                    }
                } else if t[va] == ('\'' as u8) {
                    if b - va >= 2 && t[b - 1] == ('\'' as u8) && find_byte(
                        t,
                        va + 1,
                        b - 1,
                        '\'' as u8,
                    ) == b - 1 {
                        proof {
                            assert(cls == LineView::Pair(
                                t@.subrange(a as int, kend as int),
                                ValueView::Text(t@.subrange(va as int + 1, b as int - 1)),
                            ));
                        }
                        if active && bytes_eq(line_key, key) {
                            let text = vstd::slice::slice_subrange(t, va + 1, b - 1);
                            Ok(Some(ConfigValue::Text(vstd::slice::slice_to_vec(text))))
                        } else {
                            lookup(t, next, active, table, key)
                        }
                    } else {
                        proof {
                            assert(cls is Bad);
                        }
                        Err(ConfigError::Malformed)
                    }
                } else {
                    let digits_ok = all_digits(t, va, b);
                    if digits_ok && b - va <= MAX_NUMBER_DIGITS {
                        let n = digits_val(t, va, b);
                        proof {
                            assert(cls == LineView::Pair(
                                t@.subrange(a as int, kend as int),
                                ValueView::Number(spec_digits_val(t@, va as int, b as int)),
                            ));
                        }
                        if active && bytes_eq(line_key, key) {
                            Ok(Some(ConfigValue::Number(n)))
                        } else {
                            lookup(t, next, active, table, key)
                        }
                    } else {
                        proof {
                            assert(cls is Bad);
                        }
                        Err(ConfigError::Malformed)
                    }
                }
            }
        }
    }
}

/// The value under `key` in table `table` of the whole payload.
pub fn find_value(t: &[u8], table: &[u8], key: &[u8]) -> (r: Result<
    Option<ConfigValue>,
    ConfigError,
>)
    ensures
        match r {
            Ok(Some(v)) => spec_config_lookup(t@, table@, key@) == Ok::<
                Option<ValueView>,
                ConfigError,
            >(Some(v@)),
            Ok(None) => spec_config_lookup(t@, table@, key@) == Ok::<
                Option<ValueView>,
                ConfigError,
            >(None),
            Err(e) => spec_config_lookup(t@, table@, key@) == Err::<
                Option<ValueView>,
                ConfigError,
            >(e),
        },
{
    let root = table.len() == 0;
    proof {
        if root {
            assert(table@ =~= Seq::<u8>::empty());
        } else {
            assert(table@ != Seq::<u8>::empty());
        }
    }
    lookup(t, 0, root, table, key)
}

/// The bytes of an ASCII string, character for character.
pub open spec fn ascii_seq(s: Seq<char>) -> Seq<u8> {
    Seq::new(s.len(), |i: int| s[i] as u8)
}

/// The bytes of an ASCII string literal.
pub(crate) fn ascii_bytes(s: &str) -> (r: &[u8])
    requires
        vstd::string::is_ascii(s),
    ensures
        r@ == ascii_seq(s@),
{
    proof {
        broadcast use vstd::string::is_ascii_spec_bytes;

        assert(s.spec_bytes() =~= ascii_seq(s@));
    }
    s.as_bytes()
}

/// The table naming the instrumentation request.
pub open spec fn instrumentation_table() -> Seq<u8> {
    ascii_seq("instrumentation"@)
}

/// The table naming the transport's server parameters.
pub open spec fn server_table() -> Seq<u8> {
    ascii_seq("instrumentation.server"@)
}

/// The key under which the script text stands.
pub open spec fn script_key() -> Seq<u8> {
    ascii_seq("script"@)
}

/// The key under which the transport plugin's name stands.
pub open spec fn transport_key() -> Seq<u8> {
    ascii_seq("transport"@)
}

/// The transport plugin a payload selects: the text under `transport`
/// in the instrumentation table.
pub open spec fn spec_transport_of(t: Seq<u8>) -> Result<Seq<u8>, ConfigError> {
    match spec_config_lookup(t, instrumentation_table(), transport_key()) {
        Ok(Some(ValueView::Text(s))) => Ok(s),
        Ok(Some(ValueView::Number(_))) => Err(ConfigError::Missing),
        Ok(None) => Err(ConfigError::Missing),
        Err(e) => Err(e),
    }
}

/// Extracts the transport plugin name of a payload.
pub fn transport_of(t: &[u8]) -> (r: Result<Vec<u8>, ConfigError>)
    ensures
        match r {
            Ok(v) => spec_transport_of(t@) == Ok::<Seq<u8>, ConfigError>(v@),
            Err(e) => spec_transport_of(t@) == Err::<Seq<u8>, ConfigError>(e),
        },
{
    proof {
        reveal_strlit("instrumentation");
        reveal_strlit("transport");
    }
    let table = ascii_bytes("instrumentation");
    let key = ascii_bytes("transport");
    match find_value(t, table, key) {
        Ok(Some(ConfigValue::Text(s))) => Ok(s),
        Ok(Some(ConfigValue::Number(_))) => Err(ConfigError::Missing),
        Ok(None) => Err(ConfigError::Missing),
        Err(e) => Err(e),
    }
}

/// The script text of a payload: the text under `script` in the
/// instrumentation table.  Absent or non-text means the payload names
/// no script and the session never starts.
pub open spec fn spec_script_of(t: Seq<u8>) -> Result<Seq<u8>, ConfigError> {
    match spec_config_lookup(t, instrumentation_table(), script_key()) {
        Ok(Some(ValueView::Text(s))) => Ok(s),
        Ok(Some(ValueView::Number(_))) => Err(ConfigError::Missing),
        Ok(None) => Err(ConfigError::Missing),
        Err(e) => Err(e),
    }
}

/// Extracts the script text of a payload.
pub fn script_of(t: &[u8]) -> (r: Result<Vec<u8>, ConfigError>)
    ensures
        match r {
            Ok(v) => spec_script_of(t@) == Ok::<Seq<u8>, ConfigError>(v@),
            Err(e) => spec_script_of(t@) == Err::<Seq<u8>, ConfigError>(e),
        },
{
    proof {
        reveal_strlit("instrumentation");
        reveal_strlit("script");
    }
    let table = ascii_bytes("instrumentation");
    let key = ascii_bytes("script");
    match find_value(t, table, key) {
        Ok(Some(ConfigValue::Text(s))) => Ok(s),
        Ok(Some(ConfigValue::Number(_))) => Err(ConfigError::Missing),
        Ok(None) => Err(ConfigError::Missing),
        Err(e) => Err(e),
    }
}

/// Whether a payload names a script at all; a fresh assignment starts
/// a session only when it does.
pub fn payload_valid(t: &[u8]) -> (r: bool)
    ensures
        r == spec_script_of(t@) is Ok,
{
    match script_of(t) {
        Ok(_) => true,
        Err(_) => false,
    }
}

} // verus!
