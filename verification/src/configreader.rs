//! Parsing of configuration values: booleans, integers with magnitude
//! suffixes, single characters, durations, and range clamping.

use vstd::prelude::*;
use vstd::string::StringSliceAdditionalSpecFns;
use crate::text::{str_equals, to_lowercase, unicode_lowercase};

verus! {

/// One of the lowercase words meaning "yes": yes, true, on.
pub open spec fn yes_word(lower: Seq<char>) -> bool {
    lower == "yes"@ || lower == "true"@ || lower == "on"@
}

/// One of the lowercase words meaning "no": no, false, off.
pub open spec fn no_word(lower: Seq<char>) -> bool {
    lower == "no"@ || lower == "false"@ || lower == "off"@
}

/// The boolean that a lowercase word denotes, `default` when it is none.
pub open spec fn bool_word(lower: Seq<char>, default: bool) -> bool {
    if yes_word(lower) {
        true
    } else if no_word(lower) {
        false
    } else {
        default
    }
}

/// The lowercase form of `value` is one of the words meaning "yes".
pub open spec fn spec_is_yes(value: Seq<char>) -> bool {
    yes_word(unicode_lowercase(value))
}

/// The lowercase form of `value` is one of the words meaning "no".
pub open spec fn spec_is_no(value: Seq<char>) -> bool {
    no_word(unicode_lowercase(value))
}

/// Whether an already lowercase text is "yes", "true" or "on".
pub fn is_yes_word(lower: &str) -> (r: bool)
    ensures
        r == yes_word(lower@),
{
    str_equals(lower, "yes") || str_equals(lower, "true") || str_equals(lower, "on")
}

/// Whether an already lowercase text is "no", "false" or "off".
pub fn is_no_word(lower: &str) -> (r: bool)
    ensures
        r == no_word(lower@),
{
    str_equals(lower, "no") || str_equals(lower, "false") || str_equals(lower, "off")
}

/// The boolean that an already lowercase text denotes, or the default.
pub fn bool_from_word(lower: &str, default: bool) -> (r: bool)
    ensures
        r == bool_word(lower@, default),
{
    if is_yes_word(lower) {
        true
    } else if is_no_word(lower) {
        false
    } else {
        default
    }
}

/// Checks if a string represents a boolean "yes" value: "yes", "true" or
/// "on", in any case.
pub fn is_yes(value: &str) -> (r: bool)
    ensures
        r == spec_is_yes(value@),
{
    let lower = to_lowercase(value);
    is_yes_word(lower.as_str())
}

/// Checks if a string represents a boolean "no" value: "no", "false" or
/// "off", in any case.
pub fn is_no(value: &str) -> (r: bool)
    ensures
        r == spec_is_no(value@),
{
    let lower = to_lowercase(value);
    is_no_word(lower.as_str())
}

/// The boolean that `value` denotes, `default` when it is empty or no
/// boolean word.
pub open spec fn spec_parse_bool(value: Seq<char>, default: bool) -> bool {
    if value.len() == 0 {
        default
    } else {
        bool_word(unicode_lowercase(value), default)
    }
}

/// Parses a boolean from a string, returning the default if not valid.
pub fn parse_bool(value: &str, default: bool) -> (r: bool)
    ensures
        r == spec_parse_bool(value@, default),
{
    if value.is_empty() {
        return default;
    }
    let lower = to_lowercase(value);
    bool_from_word(lower.as_str(), default)
}

/// ASCII whitespace as `u8::is_ascii_whitespace` defines it: space, tab,
/// line feed, form feed and carriage return.
pub open spec fn is_ascii_ws(b: u8) -> bool {
    b == 32 || b == 9 || b == 10 || b == 12 || b == 13
}

/// An ASCII decimal digit.
pub open spec fn is_digit(b: u8) -> bool {
    48 <= b && b <= 57
}

/// The first index at or after `i` that is not ASCII whitespace.
pub open spec fn skip_ws(s: Seq<u8>, i: int) -> int
    decreases s.len() - i,
{
    if 0 <= i < s.len() && is_ascii_ws(s[i]) {
        skip_ws(s, i + 1)
    } else {
        i
    }
}

/// Accumulates the decimal digits from `s[i]` on into `v`, stopping at the
/// first non-digit or at the first digit that would take the value past
/// `max`; returns the value and the index where it stopped.
pub open spec fn accumulate_digits(s: Seq<u8>, i: int, v: int, max: int) -> (int, int)
    decreases s.len() - i,
{
    if 0 <= i < s.len() && is_digit(s[i]) && !(v > (max - (s[i] - 48)) / 10) {
        accumulate_digits(s, i + 1, v * 10 + (s[i] - 48), max)
    } else {
        (v, i)
    }
}

/// The multiplier of a magnitude suffix: K, M and G (in either case) stand
/// for 1024, 1024^2 and 1024^3; other bytes for none.
pub open spec fn magnitude(b: u8) -> int {
    if b == 75 || b == 107 {
        1024
    } else if b == 77 || b == 109 {
        1048576
    } else if b == 71 || b == 103 {
        1073741824
    } else {
        0
    }
}

/// The multiplier of a magnitude suffix byte (0 for none).
pub fn magnitude_of(b: u8) -> (r: u64)
    ensures
        r == magnitude(b),
{
    if b == 75 || b == 107 {
        1024
    } else if b == 77 || b == 109 {
        1048576
    } else if b == 71 || b == 103 {
        1073741824
    } else {
        0
    }
}

proof fn lemma_accumulate_bounds(s: Seq<u8>, i: int, v: int, max: int)
    requires
        0 <= i <= s.len(),
        0 <= v <= max,
    ensures
        i <= accumulate_digits(s, i, v, max).1 <= s.len(),
        0 <= accumulate_digits(s, i, v, max).0 <= max,
    decreases s.len() - i,
{
    if i < s.len() && is_digit(s[i]) && !(v > (max - (s[i] - 48)) / 10) {
        let d = s[i] - 48;
        assert(v * 10 + d <= max) by (nonlinear_arith)
            requires
                v <= (max - d) / 10,
                0 <= d <= 9,
                d <= max,
        ;
        lemma_accumulate_bounds(s, i + 1, v * 10 + d, max);
    }
}

/// The value and tail position that `parse_sint_with_tail` gives for `s`:
/// leading ASCII whitespace, an optional sign, decimal digits (stopping
/// before a digit that would overflow), and an optional magnitude suffix
/// that is applied unless the product would overflow.
pub open spec fn spec_parse_sint(s: Seq<u8>) -> (int, int) {
    let i0 = skip_ws(s, 0);
    let negative = i0 < s.len() && s[i0] == 45;
    let i1 = if i0 < s.len() && (s[i0] == 43 || s[i0] == 45) { i0 + 1 } else { i0 };
    let (mag, i2) = accumulate_digits(s, i1, 0, i64::MAX as int);
    let value = if negative { -mag } else { mag };
    if i2 < s.len() && magnitude(s[i2]) > 0 {
        let m = magnitude(s[i2]);
        if value > 0 && value > (i64::MAX as int) / m {
            (value, i2)
        } else if value < 0 && value < (i64::MIN as int) / m {
            (value, i2)
        } else {
            (value * m, i2 + 1)
        }
    } else {
        (value, i2)
    }
}

proof fn lemma_skip_ws_bounds(s: Seq<u8>, i: int)
    requires
        0 <= i <= s.len(),
    ensures
        i <= skip_ws(s, i) <= s.len(),
    decreases s.len() - i,
{
    if i < s.len() && is_ascii_ws(s[i]) {
        lemma_skip_ws_bounds(s, i + 1);
    }
}

fn skip_whitespace(bytes: &[u8]) -> (r: usize)
    ensures
        r == skip_ws(bytes@, 0),
        r <= bytes@.len(),
{
    let mut idx: usize = 0;
    proof {
        lemma_skip_ws_bounds(bytes@, 0);
    }
    while idx < bytes.len() && (bytes[idx] == 32 || bytes[idx] == 9 || bytes[idx] == 10
        || bytes[idx] == 12 || bytes[idx] == 13)
        invariant
            idx <= bytes@.len(),
            skip_ws(bytes@, idx as int) == skip_ws(bytes@, 0),
        decreases bytes@.len() - idx,
    {
        idx = idx + 1;
    }
    idx
}

/// Parses a signed integer from a string with optional magnitude suffix.
/// Returns (value, tail_position) where tail_position points to the
/// character after the number.
pub fn parse_sint_with_tail(str: &str) -> (r: (i64, usize))
    ensures
        r.0 as int == spec_parse_sint(str.spec_bytes()).0,
        r.1 as int == spec_parse_sint(str.spec_bytes()).1,
{
    let bytes = str.as_bytes();
    let ghost s = bytes@;
    let mut idx = skip_whitespace(bytes);
    let mut negative = false;
    if idx < bytes.len() {
        if bytes[idx] == 43 {
            idx = idx + 1;
        } else if bytes[idx] == 45 {
            negative = true;
            idx = idx + 1;
        }
    }
    let ghost start = idx as int;
    let mut value: i64 = 0;
    proof {
        lemma_accumulate_bounds(s, start, 0, i64::MAX as int);
    }
    while idx < bytes.len() && 48 <= bytes[idx] && bytes[idx] <= 57
        invariant
            s == bytes@,
            s == str.spec_bytes(),
            start <= idx <= s.len(),
            0 <= value,
            accumulate_digits(s, idx as int, value as int, i64::MAX as int) == accumulate_digits(
                s,
                start,
                0,
                i64::MAX as int,
            ),
        ensures
            accumulate_digits(s, idx as int, value as int, i64::MAX as int) == (value as int, idx as int),
            accumulate_digits(s, start, 0, i64::MAX as int) == (value as int, idx as int),
        decreases s.len() - idx,
    {
        let digit = (bytes[idx] - 48) as i64;
        if value > (i64::MAX - digit) / 10 {
            break;
        }
        proof {
            assert(value * 10 + digit <= i64::MAX) by (nonlinear_arith)
                requires
                    value <= (i64::MAX - digit) / 10,
                    0 <= digit <= 9,
            ;
        }
        value = value * 10 + digit;
        idx = idx + 1;
    }
    if negative {
        value = -value;
    }
    if idx < bytes.len() {
        let multiplier = magnitude_of(bytes[idx]);
        if multiplier > 0 {
            let m = multiplier as i64;
            if value > 0 && value > i64::MAX / m {
                return (value, idx);
            }
            if value < 0 && value < i64::MIN / m {
                return (value, idx);
            }
            proof {
                assert(i64::MIN as int <= value * m <= i64::MAX as int) by (nonlinear_arith)
                    requires
                        m > 0,
                        value > 0 ==> value <= (i64::MAX as int) / (m as int),
                        value < 0 ==> value >= (i64::MIN as int) / (m as int),
                        m == 1024 || m == 1048576 || m == 1073741824,
                ;
            }
            value = value * m;
            idx = idx + 1;
        }
    }
    (value, idx)
}

/// The value and tail position that `parse_uint_with_tail` gives for `s`:
/// leading ASCII whitespace, decimal digits (stopping before a digit that
/// would overflow), and an optional magnitude suffix that is applied
/// unless the product would overflow.
pub open spec fn spec_parse_uint(s: Seq<u8>) -> (int, int) {
    let i0 = skip_ws(s, 0);
    let (value, i1) = accumulate_digits(s, i0, 0, u64::MAX as int);
    if i1 < s.len() && magnitude(s[i1]) > 0 {
        let m = magnitude(s[i1]);
        if value > (u64::MAX as int) / m {
            (value, i1)
        } else {
            (value * m, i1 + 1)
        }
    } else {
        (value, i1)
    }
}

/// Parses an unsigned integer from a string with optional magnitude
/// suffix. Returns (value, tail_position) where tail_position points to
/// the character after the number.
pub fn parse_uint_with_tail(str: &str) -> (r: (u64, usize))
    ensures
        r.0 as int == spec_parse_uint(str.spec_bytes()).0,
        r.1 as int == spec_parse_uint(str.spec_bytes()).1,
{
    let bytes = str.as_bytes();
    let ghost s = bytes@;
    let mut idx = skip_whitespace(bytes);
    let ghost start = idx as int;
    let mut value: u64 = 0;
    proof {
        lemma_accumulate_bounds(s, start, 0, u64::MAX as int);
    }
    while idx < bytes.len() && 48 <= bytes[idx] && bytes[idx] <= 57
        invariant
            s == bytes@,
            s == str.spec_bytes(),
            start <= idx <= s.len(),
            accumulate_digits(s, idx as int, value as int, u64::MAX as int) == accumulate_digits(
                s,
                start,
                0,
                u64::MAX as int,
            ),
        ensures
            accumulate_digits(s, idx as int, value as int, u64::MAX as int) == (value as int, idx as int),
            accumulate_digits(s, start, 0, u64::MAX as int) == (value as int, idx as int),
        decreases s.len() - idx,
    {
        let digit = (bytes[idx] - 48) as u64;
        if value > (u64::MAX - digit) / 10 {
            break;
        }
        proof {
            assert(value * 10 + digit <= u64::MAX) by (nonlinear_arith)
                requires
                    value <= (u64::MAX - digit) / 10,
                    0 <= digit <= 9,
            ;
        }
        value = value * 10 + digit;
        idx = idx + 1;
    }
    if idx < bytes.len() {
        let multiplier = magnitude_of(bytes[idx]);
        if multiplier > 0 {
            if value > u64::MAX / multiplier {
                return (value, idx);
            }
            proof {
                assert(value * multiplier <= u64::MAX) by (nonlinear_arith)
                    requires
                        multiplier > 0,
                        value <= u64::MAX / multiplier,
                ;
            }
            value = value * multiplier;
            idx = idx + 1;
        }
    }
    (value, idx)
}

/// Parses a character from a string: its only byte when it has exactly
/// one, NUL (with `empty_nul`) or the default when it is empty, and the
/// default otherwise.
pub fn parse_character(value: &str, default: u8, empty_nul: bool) -> (r: u8)
    ensures
        r == (if value.spec_bytes().len() == 0 {
            if empty_nul {
                0u8
            } else {
                default
            }
        } else if value.spec_bytes().len() == 1 {
            value.spec_bytes()[0]
        } else {
            default
        }),
{
    let bytes = value.as_bytes();
    if bytes.len() == 0 {
        return if empty_nul {
            0
        } else {
            default
        };
    }
    if bytes.len() == 1 {
        bytes[0]
    } else {
        default
    }
}

/// Clamps a value to a range: values outside `[min, max]` give `default`.
pub fn clamp_sint(value: i64, min: i64, max: i64, default: i64) -> (r: i64)
    ensures
        r == (if value < min || value > max {
            default
        } else {
            value
        }),
{
    if value < min || value > max {
        default
    } else {
        value
    }
}

/// Clamps an unsigned value to a range: values outside `[min, max]` give
/// `default`.
pub fn clamp_uint(value: u64, min: u64, max: u64, default: u64) -> (r: u64)
    ensures
        r == (if value < min || value > max {
            default
        } else {
            value
        }),
{
    if value < min || value > max {
        default
    } else {
        value
    }
}

/// Validates that a string's length in bytes is within `[minlen, maxlen]`.
pub fn validate_string_length(value: &str, minlen: usize, maxlen: usize) -> (r: bool)
    ensures
        r == (minlen <= value.spec_bytes().len() && value.spec_bytes().len() <= maxlen),
{
    let len = value.as_bytes().len();
    len >= minlen && len <= maxlen
}

/// Seconds in the unit that a duration suffix names: s, m, h, d, w and y
/// (in either case) stand for a second, minute, hour, day, week and
/// average year of 365.25 days; other bytes for none.
pub open spec fn duration_unit(b: u8) -> int {
    if b == 83 || b == 115 {
        1
    } else if b == 77 || b == 109 {
        60
    } else if b == 72 || b == 104 {
        3600
    } else if b == 68 || b == 100 {
        86400
    } else if b == 87 || b == 119 {
        604800
    } else if b == 89 || b == 121 {
        31557600
    } else {
        0
    }
}

/// The seconds of the unit named by a duration suffix byte.
pub fn duration_unit_of(b: u8) -> (r: u64)
    ensures
        r == duration_unit(b),
{
    if b == 83 || b == 115 {
        1
    } else if b == 77 || b == 109 {
        60
    } else if b == 72 || b == 104 {
        3600
    } else if b == 68 || b == 100 {
        86400
    } else if b == 87 || b == 119 {
        604800
    } else if b == 89 || b == 121 {
        31557600
    } else {
        0
    }
}

/// The state of `parse_duration` after reading `s[..n]`: the running total
/// and the pending number, or `None` once the input has been rejected or a
/// number or the total no longer fits in 64 bits.
pub open spec fn duration_state(s: Seq<u8>, n: int) -> Option<(int, int)>
    decreases n,
{
    if n <= 0 {
        Some((0, 0))
    } else {
        match duration_state(s, n - 1) {
            None => None,
            Some((total, subtotal)) => {
                let c = s[n - 1];
                if is_digit(c) {
                    let d = c - 48;
                    if subtotal > (u64::MAX as int - d) / 10 {
                        None
                    } else {
                        Some((total, subtotal * 10 + d))
                    }
                } else {
                    let m = duration_unit(c);
                    if m == 0 {
                        None
                    } else if subtotal > 0 && subtotal > (u64::MAX as int) / m {
                        None
                    } else if total + subtotal * m > u64::MAX {
                        None
                    } else {
                        Some((total + subtotal * m, 0))
                    }
                }
            },
        }
    }
}

/// The seconds that a duration string such as `1y2w3d4h5m6s` stands for;
/// a trailing number counts as seconds. `None` for the empty string, for
/// any byte that is neither a digit nor a unit, and on overflow.
pub open spec fn spec_parse_duration(s: Seq<u8>) -> Option<int> {
    if s.len() == 0 {
        None
    } else {
        match duration_state(s, s.len() as int) {
            None => None,
            Some((total, subtotal)) => if subtotal > 0 && total > u64::MAX - subtotal {
                None
            } else {
                Some(total + subtotal)
            },
        }
    }
}

proof fn lemma_duration_state_range(s: Seq<u8>, n: int)
    requires
        n <= s.len(),
    ensures
        duration_state(s, n) matches Some((t, st)) ==> 0 <= t <= u64::MAX && 0 <= st <= u64::MAX,
    decreases n,
{
    if n > 0 {
        lemma_duration_state_range(s, n - 1);
        if let Some((total, subtotal)) = duration_state(s, n - 1) {
            let c = s[n - 1];
            if is_digit(c) {
                let d = c - 48;
                if !(subtotal > (u64::MAX as int - d) / 10) {
                    assert(subtotal * 10 + d <= u64::MAX) by (nonlinear_arith)
                        requires
                            subtotal <= (u64::MAX - d) / 10,
                            0 <= d <= 9,
                    ;
                }
            } else {
                let m = duration_unit(c);
                if m != 0 && !(subtotal > 0 && subtotal > (u64::MAX as int) / m) {
                    assert(0 <= subtotal * m) by (nonlinear_arith)
                        requires
                            0 <= subtotal,
                            0 < m,
                    ;
                }
            }
        }
    }
}

/// Parses a duration string (e.g., "1y2w3d4h5m6s") into seconds.
/// Returns the duration in seconds, or None if parsing failed.
pub fn parse_duration(str: &str) -> (r: Option<u64>)
    ensures
        r matches Some(v) ==> spec_parse_duration(str.spec_bytes()) == Some(v as int),
        r is None ==> spec_parse_duration(str.spec_bytes()) is None,
{
    let bytes = str.as_bytes();
    let ghost s = bytes@;
    if bytes.len() == 0 {
        return None;
    }
    let mut total: u64 = 0;
    let mut subtotal: u64 = 0;
    let mut i: usize = 0;
    while i < bytes.len()
        invariant
            s == bytes@,
            s == str.spec_bytes(),
            i <= s.len(),
            duration_state(s, i as int) == Some((total as int, subtotal as int)),
        decreases s.len() - i,
    {
        let chr = bytes[i];
        proof {
            lemma_duration_state_range(s, i as int + 1);
        }
        if chr >= 48 && chr <= 57 {
            let digit = (chr - 48) as u64;
            if subtotal > (u64::MAX - digit) / 10 {
                proof {
                    lemma_none_stays_none(s, i as int + 1, s.len() as int);
                }
                return None;
            }
            subtotal = subtotal * 10 + digit;
        } else {
            let multiplier = duration_unit_of(chr);
            if multiplier == 0 {
                proof {
                    lemma_none_stays_none(s, i as int + 1, s.len() as int);
                }
                return None;
            }
            if subtotal > 0 && subtotal > u64::MAX / multiplier {
                proof {
                    lemma_none_stays_none(s, i as int + 1, s.len() as int);
                }
                return None;
            }
            proof {
                assert(subtotal * multiplier <= u64::MAX) by (nonlinear_arith)
                    requires
                        multiplier > 0,
                        subtotal == 0 || subtotal <= u64::MAX / multiplier,
                ;
            }
            let product = subtotal * multiplier;
            if total > u64::MAX - product {
                proof {
                    lemma_none_stays_none(s, i as int + 1, s.len() as int);
                }
                return None;
            }
            let t = total + product;
            total = t;
            subtotal = 0;
        }
        i = i + 1;
    }
    if subtotal > 0 {
        if total > u64::MAX - subtotal {
            return None;
        }
        total = total + subtotal;
    }
    Some(total)
}

proof fn lemma_none_stays_none(s: Seq<u8>, n: int, m: int)
    requires
        n <= m,
        duration_state(s, n) is None,
    ensures
        duration_state(s, m) is None,
    decreases m - n,
{
    if n < m {
        lemma_none_stays_none(s, n, m - 1);
    }
}

/// Clamps a duration value to a range: values outside `[min, max]` give
/// `default`.
pub fn clamp_duration(value: u64, min: u64, max: u64, default: u64) -> (r: u64)
    ensures
        r == (if value < min || value > max {
            default
        } else {
            value
        }),
{
    if value < min || value > max {
        default
    } else {
        value
    }
}

/// A setting that is empty, or only ASCII whitespace while the default
/// is not zero, takes the default.
pub open spec fn takes_default(value: Seq<u8>, default_is_zero: bool) -> bool {
    value.len() == 0 || (!default_is_zero && forall|i: int| 0 <= i < value.len() ==> is_ascii_ws(#[trigger] value[i]))
}

fn takes_default_of(value: &[u8], default_is_zero: bool) -> (r: bool)
    ensures
        r == takes_default(value@, default_is_zero),
{
    if value.len() == 0 {
        return true;
    }
    if default_is_zero {
        return false;
    }
    let mut i: usize = 0;
    while i < value.len()
        invariant
            i <= value@.len(),
            forall|j: int| 0 <= j < i ==> is_ascii_ws(#[trigger] value@[j]),
        decreases value.len() - i,
    {
        let b = value[i];
        if !(b == 32 || b == 9 || b == 10 || b == 12 || b == 13) {
            assert(!is_ascii_ws(value@[i as int]));
            return false;
        }
        i = i + 1;
    }
    true
}

/// A boolean setting: its value (the default where it is not a yes or no
/// word), and whether it was valid (empty, or a yes or no word).
pub fn bool_setting(value: &str, default: bool) -> (r: (bool, bool))
    ensures
        r.0 == spec_parse_bool(value@, default),
        r.1 == (value@.len() == 0 || spec_is_yes(value@) || spec_is_no(value@)),
{
    let parsed = parse_bool(value, default);
    let empty = crate::text::str_chars(value).len() == 0;
    (parsed, empty || is_yes(value) || is_no(value))
}

/// A signed setting: `None` where it takes the default, else the value
/// (the default where it is outside `[min, max]`) and where the number
/// ended.
pub fn sint_setting(value: &str, default: i64, min: i64, max: i64) -> (r: Option<(i64, usize)>)
    ensures
        takes_default(value.spec_bytes(), default == 0) ==> r is None,
        !takes_default(value.spec_bytes(), default == 0) ==> (r matches Some((v, t)) && v == (if spec_parse_sint(value.spec_bytes()).0 < min || spec_parse_sint(value.spec_bytes()).0 > max {
            default as int
        } else {
            spec_parse_sint(value.spec_bytes()).0
        }) && t == spec_parse_sint(value.spec_bytes()).1),
{
    let (parsed, idx) = parse_sint_with_tail(value);
    if takes_default_of(value.as_bytes(), default == 0) {
        return None;
    }
    Some((clamp_sint(parsed, min, max, default), idx))
}

/// An unsigned setting: `None` where it takes the default, else the value
/// (the default where it is outside `[min, max]`) and where the number
/// ended.
pub fn uint_setting(value: &str, default: u64, min: u64, max: u64) -> (r: Option<(u64, usize)>)
    ensures
        takes_default(value.spec_bytes(), default == 0) ==> r is None,
        !takes_default(value.spec_bytes(), default == 0) ==> (r matches Some((v, t)) && v == (if spec_parse_uint(value.spec_bytes()).0 < min || spec_parse_uint(value.spec_bytes()).0 > max {
            default as int
        } else {
            spec_parse_uint(value.spec_bytes()).0
        }) && t == spec_parse_uint(value.spec_bytes()).1),
{
    let (parsed, idx) = parse_uint_with_tail(value);
    if takes_default_of(value.as_bytes(), default == 0) {
        return None;
    }
    Some((clamp_uint(parsed, min, max, default), idx))
}

/// A duration setting: `None` where it is empty or not a duration, else
/// the duration (the default where it is outside `[min, max]`).
pub fn duration_setting(value: &str, default: u64, min: u64, max: u64) -> (r: Option<u64>)
    ensures
        value.spec_bytes().len() == 0 ==> r is None,
        value.spec_bytes().len() != 0 ==> match spec_parse_duration(value.spec_bytes()) {
            Some(d) => (r matches Some(v) && v == (if d < min || d > max { default as int } else { d })),
            None => r is None,
        },
{
    if value.as_bytes().len() == 0 {
        return None;
    }
    match parse_duration(value) {
        Some(d) => Some(clamp_duration(d, min, max, default)),
        None => None,
    }
}

} // verus!
