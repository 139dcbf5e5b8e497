//! Helpers of the core: durations, colour codes, and the validity of
//! nicknames, usernames, hostnames, masks and server IDs.

use vstd::prelude::*;
use vstd::string::StringSliceAdditionalSpecFns;
use crate::configreader::{duration_unit, duration_unit_of, is_digit};
use crate::text::{decimal, digit_char, push_decimal, str_chars, u64_to_string};
use vstd::utf8::{encode_utf8, is_ascii_chars, is_ascii_chars_concat, is_ascii_chars_encode_utf8};
pub use crate::colors::{process_colors, strip_color};

verus! {

pub const SECONDS_PER_MINUTE: u64 = 60;

pub const SECONDS_PER_HOUR: u64 = 3600;

pub const SECONDS_PER_DAY: u64 = 86400;

pub const SECONDS_PER_WEEK: u64 = 604800;

pub const SECONDS_PER_YEAR: u64 = 31536000;

/// Duration parsing and formatting.
pub struct Duration;

/// The running total and pending number after reading `s[..n]` of a
/// duration string, computed without bounds; `None` once a byte that is
/// neither a digit nor a unit has been read.
pub open spec fn duration_parse_state(s: Seq<u8>, n: int) -> Option<(int, int)>
    decreases n,
{
    if n <= 0 {
        Some((0, 0))
    } else {
        match duration_parse_state(s, n - 1) {
            None => None,
            Some((total, subtotal)) => {
                let c = s[n - 1];
                if is_digit(c) {
                    Some((total, subtotal * 10 + (c - 48)))
                } else if duration_unit(c) == 0 {
                    None
                } else {
                    Some((total + subtotal * duration_unit(c), 0))
                }
            },
        }
    }
}

/// A parse state whose numbers fit in 64 bits.
pub open spec fn state_fits(st: Option<(int, int)>) -> bool {
    match st {
        Some((t, sub)) => t <= u64::MAX && sub <= u64::MAX,
        None => true,
    }
}

/// Every number that parsing the duration string computes fits in 64 bits.
pub open spec fn duration_fits(s: Seq<u8>) -> bool {
    &&& forall|n: int| 0 <= n <= s.len() ==> #[trigger] state_fits(duration_parse_state(s, n))
    &&& (duration_parse_state(s, s.len() as int) matches Some((t, sub)) ==> t + sub <= u64::MAX)
}

/// The seconds that a duration string stands for: each number followed by
/// a unit counts that many units, a trailing number counts seconds;
/// `None` when a byte is neither a digit nor a unit.
pub open spec fn spec_duration_from(s: Seq<u8>) -> Option<int> {
    match duration_parse_state(s, s.len() as int) {
        Some((t, sub)) => Some(t + sub),
        None => None,
    }
}

proof fn lemma_parse_state_nonneg(s: Seq<u8>, n: int)
    ensures
        duration_parse_state(s, n) matches Some((t, sub)) ==> t >= 0 && sub >= 0,
    decreases n,
{
    if n > 0 {
        lemma_parse_state_nonneg(s, n - 1);
        if let Some((t, sub)) = duration_parse_state(s, n - 1) {
            let c = s[n - 1];
            if !is_digit(c) && duration_unit(c) != 0 {
                assert(sub * duration_unit(c) >= 0) by (nonlinear_arith)
                    requires
                        sub >= 0,
                        duration_unit(c) > 0,
                ;
            }
        }
    }
}

proof fn lemma_parse_state_none_stays(s: Seq<u8>, n: int, m: int)
    requires
        n <= m,
        duration_parse_state(s, n) is None,
    ensures
        duration_parse_state(s, m) is None,
    decreases m - n,
{
    if n < m {
        lemma_parse_state_none_stays(s, n, m - 1);
    }
}

proof fn lemma_state_below_total(s: Seq<u8>, n: int)
    requires
        0 <= n <= s.len(),
        spec_duration_from(s) is Some,
    ensures
        duration_parse_state(s, n) is Some,
        duration_parse_state(s, n).unwrap().0 + duration_parse_state(s, n).unwrap().1
            <= spec_duration_from(s).unwrap(),
    decreases s.len() - n,
{
    if n < s.len() {
        lemma_state_below_total(s, n + 1);
        lemma_parse_state_nonneg(s, n);
        let st = duration_parse_state(s, n);
        assert(duration_parse_state(s, n + 1) == match st {
            None => None::<(int, int)>,
            Some((total, subtotal)) => {
                let c = s[n];
                if is_digit(c) {
                    Some((total, subtotal * 10 + (c - 48)))
                } else if duration_unit(c) == 0 {
                    None
                } else {
                    Some((total + subtotal * duration_unit(c), 0))
                }
            },
        });
        let (t, sub) = st.unwrap();
        let c = s[n];
        if !is_digit(c) && duration_unit(c) != 0 {
            assert(sub <= sub * duration_unit(c)) by (nonlinear_arith)
                requires
                    sub >= 0,
                    duration_unit(c) >= 1,
            ;
        }
    }
}

/// A duration string whose total fits in 64 bits is read without any
/// number on the way leaving 64 bits: every running total and pending
/// number is at most the total.
pub proof fn law_duration_fits_when_total_fits(s: Seq<u8>)
    requires
        spec_duration_from(s) matches Some(v) && v <= u64::MAX,
    ensures
        duration_fits(s),
{
    assert forall|n: int| 0 <= n <= s.len() implies #[trigger] state_fits(duration_parse_state(s, n)) by {
        lemma_state_below_total(s, n);
        lemma_parse_state_nonneg(s, n);
    }
    lemma_state_below_total(s, s.len() as int);
}

/// Every byte of a duration string is a digit or a unit letter.
pub open spec fn duration_bytes_valid(s: Seq<u8>) -> bool {
    forall|i: int| 0 <= i < s.len() ==> is_digit(#[trigger] s[i]) || duration_unit(s[i]) != 0
}

proof fn lemma_parse_state_none_iff(s: Seq<u8>, n: int)
    requires
        0 <= n <= s.len(),
    ensures
        duration_parse_state(s, n) is None <==> !duration_bytes_valid(s.take(n)),
    decreases n,
{
    if n > 0 {
        lemma_parse_state_none_iff(s, n - 1);
        assert forall|i: int| 0 <= i < n - 1 implies s.take(n)[i] == #[trigger] s.take(n - 1)[i] by {}
        if !duration_bytes_valid(s.take(n - 1)) {
            let i = choose|i: int| 0 <= i < n - 1 && !(is_digit(#[trigger] s.take(n - 1)[i]) || duration_unit(s.take(n - 1)[i]) != 0);
            assert(s.take(n)[i] == s.take(n - 1)[i]);
        } else {
            let c = s[n - 1];
            assert(s.take(n)[n - 1] == c);
            if duration_bytes_valid(s.take(n)) {
                assert(is_digit(s.take(n)[n - 1]) || duration_unit(s.take(n)[n - 1]) != 0);
            }
            if is_digit(c) || duration_unit(c) != 0 {
                assert forall|i: int| 0 <= i < n implies is_digit(#[trigger] s.take(n)[i]) || duration_unit(s.take(n)[i]) != 0 by {
                    if i < n - 1 {
                        assert(s.take(n)[i] == s.take(n - 1)[i]);
                    }
                }
            }
        }
    } else {
        assert(s.take(0).len() == 0);
    }
}

/// A duration string reads as no duration exactly when one of its bytes is
/// neither a digit nor a unit letter, which is when `Duration::is_valid`
/// refuses it; `Duration::try_from_str` errs on just these strings.
pub proof fn law_duration_invalid_iff_unreadable(s: Seq<u8>)
    ensures
        spec_duration_from(s) is None <==> !duration_bytes_valid(s),
{
    lemma_parse_state_none_iff(s, s.len() as int);
    assert(s.take(s.len() as int) =~= s);
}

/// The seconds of a short-form part: the number followed by its unit
/// letter, or nothing when the number is zero.
pub open spec fn short_part(n: int, unit: char) -> Seq<char> {
    if n > 0 {
        decimal(n as nat) + seq![unit]
    } else {
        Seq::empty()
    }
}

/// The short form of a duration, e.g. `1y2w3d4h5m6s` (a year counting 365
/// days); `0s` for zero.
pub open spec fn spec_duration_short(d: nat) -> Seq<char> {
    if d == 0 {
        seq!['0', 's']
    } else {
        let y = d / 31536000;
        let r1 = d % 31536000;
        let w = r1 / 604800;
        let r2 = r1 % 604800;
        let dd = r2 / 86400;
        let r3 = r2 % 86400;
        let h = r3 / 3600;
        let r4 = r3 % 3600;
        let m = r4 / 60;
        let sec = r4 % 60;
        short_part(y as int, 'y') + short_part(w as int, 'w') + short_part(dd as int, 'd')
            + short_part(h as int, 'h') + short_part(m as int, 'm') + short_part(sec as int, 's')
    }
}

/// `seconds` rounded to the nearest multiple of `roundto`, halves down.
pub open spec fn spec_nearest(seconds: int, roundto: int) -> int {
    if seconds % roundto <= roundto / 2 {
        seconds - seconds % roundto
    } else {
        seconds - seconds % roundto + roundto
    }
}

/// The duration that the brief long form describes: rounded to whole days
/// from a year on, to whole hours from a day on, to whole minutes from an
/// hour on.
pub open spec fn brief_rounded(d: int) -> int {
    if d >= 31536000 {
        spec_nearest(d, 86400)
    } else if d >= 86400 {
        spec_nearest(d, 3600)
    } else if d >= 3600 {
        spec_nearest(d, 60)
    } else {
        d
    }
}

/// Rounding a 64-bit duration for the brief long form stays within 64
/// bits: the last whole day below `u64::MAX` is less than half a day from it.
proof fn lemma_brief_rounding_fits(d: u64)
    ensures
        brief_rounded(d as int) <= u64::MAX,
{
    if d >= 31536000 {
        let q = d as int / 86400;
        let rem = d as int % 86400;
        assert(d as int == 86400 * q + rem && 0 <= rem < 86400) by {
            vstd::arithmetic::div_mod::lemma_fundamental_div_mod(d as int, 86400);
        }
        if rem > 43200 {
            assert(86400 * q + 86400 <= u64::MAX) by (nonlinear_arith)
                requires
                    86400 * q + rem <= u64::MAX,
                    rem > 43200,
            ;
        }
    } else if d >= 86400 {
        vstd::arithmetic::div_mod::lemma_fundamental_div_mod(d as int, 3600);
    } else if d >= 3600 {
        vstd::arithmetic::div_mod::lemma_fundamental_div_mod(d as int, 60);
    }
}

/// One part of the long form: `<n> <unit>`, with the plural unit unless
/// `n` is 1; none when `n` is zero.
pub open spec fn long_part(n: int, singular: Seq<char>, plural: Seq<char>) -> Seq<Seq<char>> {
    if n > 0 {
        seq![decimal(n as nat) + seq![' '] + (if n == 1 {
            singular
        } else {
            plural
        })]
    } else {
        Seq::empty()
    }
}

/// The parts of the long form of a nonzero duration, largest unit first.
pub open spec fn long_parts(d: nat) -> Seq<Seq<char>> {
    let y = d / 31536000;
    let r1 = d % 31536000;
    let w = r1 / 604800;
    let r2 = r1 % 604800;
    let dd = r2 / 86400;
    let r3 = r2 % 86400;
    let h = r3 / 3600;
    let r4 = r3 % 3600;
    let m = r4 / 60;
    let sec = r4 % 60;
    long_part(y as int, "year"@, "years"@) + long_part(w as int, "week"@, "weeks"@) + long_part(
        dd as int,
        "day"@,
        "days"@,
    ) + long_part(h as int, "hour"@, "hours"@) + long_part(m as int, "minute"@, "minutes"@)
        + long_part(sec as int, "second"@, "seconds"@)
}

/// The parts joined by `sep`.
pub open spec fn join_with(parts: Seq<Seq<char>>, sep: Seq<char>) -> Seq<char>
    decreases parts.len(),
{
    if parts.len() == 0 {
        Seq::empty()
    } else if parts.len() == 1 {
        parts[0]
    } else {
        join_with(parts.drop_last(), sep) + sep + parts.last()
    }
}

/// Parts listed in English: `a`, `a and b`, `a, b and c`.
pub open spec fn english_list(parts: Seq<Seq<char>>) -> Seq<char> {
    if parts.len() <= 1 {
        join_with(parts, ", "@)
    } else {
        join_with(parts.drop_last(), ", "@) + " and "@ + parts.last()
    }
}

/// The long form of a duration, e.g. `1 year, 2 weeks and 3 days`;
/// `0 seconds` for zero. The brief form rounds first.
pub open spec fn spec_duration_long(d: nat, brief: bool) -> Seq<char> {
    if d == 0 {
        "0 seconds"@
    } else {
        english_list(long_parts((if brief { brief_rounded(d as int) } else { d as int }) as nat))
    }
}

fn push_short_part(ret: &mut String, n: u64, unit: char)
    ensures
        final(ret)@ == old(ret)@ + short_part(n as int, unit),
{
    if n > 0 {
        push_decimal(ret, n);
        crate::text::push_char(ret, unit);
        proof {
            assert(old(ret)@ + decimal(n as nat) + seq![unit] =~= old(ret)@ + (decimal(n as nat)
                + seq![unit]));
        }
    } else {
        proof {
            assert(old(ret)@ + Seq::<char>::empty() =~= old(ret)@);
        }
    }
}

fn push_long_part(
    parts: &mut Vec<String>,
    n: u64,
    singular: &str,
    plural: &str,
    ghost_parts: Ghost<Seq<Seq<char>>>,
) -> (r: Ghost<Seq<Seq<char>>>)
    requires
        old(parts)@.len() == ghost_parts@.len(),
        forall|i: int| 0 <= i < ghost_parts@.len() ==> #[trigger] old(parts)@[i]@ == ghost_parts@[i],
    ensures
        r@ == ghost_parts@ + long_part(n as int, singular@, plural@),
        final(parts)@.len() == r@.len(),
        forall|i: int| 0 <= i < r@.len() ==> #[trigger] final(parts)@[i]@ == r@[i],
{
    if n > 0 {
        let mut s = u64_to_string(n);
        crate::text::push_char(&mut s, ' ');
        let ghost head = s@;
        if n == 1 {
            s.append(singular);
            proof {
                assert(s@ == head + singular@);
            }
        } else {
            s.append(plural);
            proof {
                assert(s@ == head + plural@);
            }
        }
        proof {
            assert(head == decimal(n as nat) + seq![' ']);
            assert(s@ == decimal(n as nat) + seq![' '] + (if n == 1 {
                singular@
            } else {
                plural@
            }));
        }
        let ghost np = ghost_parts@.push(s@);
        parts.push(s);
        proof {
            assert(long_part(n as int, singular@, plural@) =~= seq![s@]);
            assert(ghost_parts@ + seq![s@] =~= np);
        }
        Ghost(np)
    } else {
        proof {
            assert(ghost_parts@ + Seq::<Seq<char>>::empty() =~= ghost_parts@);
        }
        ghost_parts
    }
}

impl Duration {
    /// Attempts to parse a duration string into seconds: each number
    /// followed by a unit (s, m, h, d, w, y in either case) counts that many
    /// units, a trailing number counts seconds. Errs on any other byte.
    pub fn try_from_str(str: &str) -> (r: Result<u64, ()>)
        requires
            duration_fits(str.spec_bytes()),
        ensures
            match spec_duration_from(str.spec_bytes()) {
                Some(v) => r == Ok::<u64, ()>(v as u64),
                None => r is Err,
            },
            r matches Ok(v) ==> spec_duration_from(str.spec_bytes()) == Some(v as int),
    {
        let bytes = str.as_bytes();
        let ghost s = bytes@;
        let mut total: u64 = 0;
        let mut subtotal: u64 = 0;
        let mut i: usize = 0;
        while i < bytes.len()
            invariant
                s == bytes@,
                s == str.spec_bytes(),
                duration_fits(s),
                i <= s.len(),
                duration_parse_state(s, i as int) == Some((total as int, subtotal as int)),
            decreases s.len() - i,
        {
            let chr = bytes[i];
            proof {
                assert(state_fits(duration_parse_state(s, i + 1)));
                lemma_parse_state_nonneg(s, i + 1);
            }
            if chr >= 48 && chr <= 57 {
                subtotal = subtotal * 10 + (chr - 48) as u64;
            } else {
                let multiplier = duration_unit_of(chr);
                if multiplier == 0 {
                    proof {
                        lemma_parse_state_none_stays(s, i + 1, s.len() as int);
                    }
                    return Err(());
                }
                proof {
                    assert(subtotal * multiplier <= total + subtotal * multiplier) by (nonlinear_arith)
                        requires
                            total >= 0,
                            subtotal >= 0,
                            multiplier > 0,
                    ;
                }
                total = total + subtotal * multiplier;
                subtotal = 0;
            }
            i = i + 1;
        }
        Ok(total + subtotal)
    }

    /// Parses a duration string as `try_from_str` does, or gives `None`
    /// where a number met on the way does not fit in 64 bits.
    pub fn try_from_str_checked(str: &str) -> (r: Option<Result<u64, ()>>)
        ensures
            r is None <==> !duration_fits(str.spec_bytes()),
            r matches Some(v) ==> match spec_duration_from(str.spec_bytes()) {
                Some(d) => v == Ok::<u64, ()>(d as u64),
                None => v is Err,
            },
    {
        let bytes = str.as_bytes();
        let ghost s = bytes@;
        let mut total: u64 = 0;
        let mut subtotal: u64 = 0;
        let mut i: usize = 0;
        while i < bytes.len()
            invariant
                s == bytes@,
                s == str.spec_bytes(),
                i <= s.len(),
                duration_parse_state(s, i as int) == Some((total as int, subtotal as int)),
                forall|n: int| 0 <= n <= i ==> #[trigger] state_fits(duration_parse_state(s, n)),
            decreases s.len() - i,
        {
            let chr = bytes[i];
            proof {
                lemma_parse_state_nonneg(s, i + 1);
            }
            if chr >= 48 && chr <= 57 {
                let next = match subtotal.checked_mul(10) {
                    Some(m) => m.checked_add((chr - 48) as u64),
                    None => None,
                };
                match next {
                    Some(v) => {
                        subtotal = v;
                    },
                    None => {
                        proof {
                            assert(!state_fits(duration_parse_state(s, i + 1)));
                        }
                        return None;
                    },
                }
            } else {
                let multiplier = duration_unit_of(chr);
                if multiplier == 0 {
                    proof {
                        assert forall|n: int| 0 <= n <= s.len() implies #[trigger] state_fits(
                            duration_parse_state(s, n),
                        ) by {
                            if n > i {
                                lemma_parse_state_none_stays(s, i + 1, n);
                            }
                        }
                        lemma_parse_state_none_stays(s, i + 1, s.len() as int);
                    }
                    return Some(Err(()));
                }
                let next = match subtotal.checked_mul(multiplier) {
                    Some(m) => total.checked_add(m),
                    None => None,
                };
                match next {
                    Some(v) => {
                        total = v;
                        subtotal = 0;
                    },
                    None => {
                        proof {
                            if subtotal as int * multiplier as int <= u64::MAX {
                                assert(!state_fits(duration_parse_state(s, i + 1)));
                            } else {
                                assert(total + subtotal * multiplier > u64::MAX) by (nonlinear_arith)
                                    requires
                                        subtotal as int * multiplier as int > u64::MAX,
                                        total >= 0,
                                ;
                                assert(!state_fits(duration_parse_state(s, i + 1)));
                            }
                        }
                        return None;
                    },
                }
            }
            proof {
                assert forall|n: int| 0 <= n <= i + 1 implies #[trigger] state_fits(
                    duration_parse_state(s, n),
                ) by {
                    if n <= i {
                    }
                }
            }
            i = i + 1;
        }
        match total.checked_add(subtotal) {
            Some(v) => Some(Ok(v)),
            None => None,
        }
    }

    /// Parses a duration string into seconds, or 0 when it is invalid.
    pub fn from_str(str: &str) -> (r: u64)
        requires
            duration_fits(str.spec_bytes()),
        ensures
            r as int == match spec_duration_from(str.spec_bytes()) {
                Some(v) => v,
                None => 0,
            },
    {
        match Self::try_from_str(str) {
            Ok(v) => v,
            Err(_) => 0,
        }
    }

    /// Checks that a duration string holds only digits and unit letters.
    pub fn is_valid(duration: &str) -> (r: bool)
        ensures
            r == duration_bytes_valid(duration.spec_bytes()),
    {
        let bytes = duration.as_bytes();
        let mut i: usize = 0;
        while i < bytes.len()
            invariant
                bytes@ == duration.spec_bytes(),
                i <= bytes@.len(),
                forall|j: int|
                    0 <= j < i ==> is_digit(#[trigger] bytes@[j]) || duration_unit(bytes@[j]) != 0,
            decreases bytes@.len() - i,
        {
            let c = bytes[i];
            if !(c >= 48 && c <= 57) && duration_unit_of(c) == 0 {
                return false;
            }
            i = i + 1;
        }
        true
    }

    /// Converts seconds to a short duration string (e.g., "1y2w3d").
    pub fn to_string(duration: u64) -> (r: String)
        ensures
            r@ == spec_duration_short(duration as nat),
    {
        if duration == 0 {
            let mut z = String::new();
            crate::text::push_char(&mut z, '0');
            crate::text::push_char(&mut z, 's');
            proof {
                assert(z@ =~= seq!['0', 's']);
            }
            return z;
        }
        let mut ret = String::new();
        let years = duration / SECONDS_PER_YEAR;
        let r1 = duration % SECONDS_PER_YEAR;
        let weeks = r1 / SECONDS_PER_WEEK;
        let r2 = r1 % SECONDS_PER_WEEK;
        let days = r2 / SECONDS_PER_DAY;
        let r3 = r2 % SECONDS_PER_DAY;
        let hours = r3 / SECONDS_PER_HOUR;
        let r4 = r3 % SECONDS_PER_HOUR;
        let minutes = r4 / SECONDS_PER_MINUTE;
        let seconds = r4 % SECONDS_PER_MINUTE;
        push_short_part(&mut ret, years, 'y');
        push_short_part(&mut ret, weeks, 'w');
        push_short_part(&mut ret, days, 'd');
        push_short_part(&mut ret, hours, 'h');
        push_short_part(&mut ret, minutes, 'm');
        push_short_part(&mut ret, seconds, 's');
        proof {
            assert(ret@ =~= spec_duration_short(duration as nat));
        }
        ret
    }

    /// `seconds` rounded to the nearest multiple of `roundto`, halves down.
    pub fn nearest(seconds: u64, roundto: u64) -> (r: u64)
        requires
            roundto > 0,
            spec_nearest(seconds as int, roundto as int) <= u64::MAX,
        ensures
            r == spec_nearest(seconds as int, roundto as int),
    {
        proof {
            vstd::arithmetic::div_mod::lemma_fundamental_div_mod(seconds as int, roundto as int);
            assert(seconds % roundto <= seconds) by (nonlinear_arith)
                requires
                    seconds as int == roundto * (seconds as int / roundto as int) + seconds % roundto,
                    roundto > 0,
                    seconds as int / roundto as int >= 0,
            ;
        }
        if (seconds % roundto) <= (roundto / 2) {
            seconds - (seconds % roundto)
        } else {
            seconds - (seconds % roundto) + roundto
        }
    }

    /// Converts seconds to a long human-readable duration string (e.g.,
    /// "1 year, 2 weeks and 3 days"); the brief form rounds to whole days,
    /// hours or minutes first.
    pub fn to_long_string(duration: u64, brief: bool) -> (r: String)
        ensures
            r@ == spec_duration_long(duration as nat, brief),
    {
        proof {
            lemma_brief_rounding_fits(duration);
        }
        if duration == 0 {
            return String::from_str("0 seconds");
        }
        let mut d = duration;
        if brief {
            if d >= SECONDS_PER_YEAR {
                d = Self::nearest(d, SECONDS_PER_DAY);
            } else if d >= SECONDS_PER_DAY {
                d = Self::nearest(d, SECONDS_PER_HOUR);
            } else if d >= SECONDS_PER_HOUR {
                d = Self::nearest(d, SECONDS_PER_MINUTE);
            }
        }
        let years = d / SECONDS_PER_YEAR;
        let r1 = d % SECONDS_PER_YEAR;
        let weeks = r1 / SECONDS_PER_WEEK;
        let r2 = r1 % SECONDS_PER_WEEK;
        let days = r2 / SECONDS_PER_DAY;
        let r3 = r2 % SECONDS_PER_DAY;
        let hours = r3 / SECONDS_PER_HOUR;
        let r4 = r3 % SECONDS_PER_HOUR;
        let minutes = r4 / SECONDS_PER_MINUTE;
        let seconds = r4 % SECONDS_PER_MINUTE;
        let mut parts: Vec<String> = Vec::new();
        let g = Ghost(Seq::<Seq<char>>::empty());
        let g = push_long_part(&mut parts, years, "year", "years", g);
        let g = push_long_part(&mut parts, weeks, "week", "weeks", g);
        let g = push_long_part(&mut parts, days, "day", "days", g);
        let g = push_long_part(&mut parts, hours, "hour", "hours", g);
        let g = push_long_part(&mut parts, minutes, "minute", "minutes", g);
        let g = push_long_part(&mut parts, seconds, "second", "seconds", g);
        proof {
            assert(g@ =~= long_parts(d as nat));
        }
        join_english(&parts, g)
    }
}

/// A unit of the long form, in seconds: a year of 365 days, a week, a
/// day, an hour, a minute or a second.
pub open spec fn is_time_unit(u: nat) -> bool {
    u == 31536000 || u == 604800 || u == 86400 || u == 3600 || u == 60 || u == 1
}

/// The English name of a unit of `u` seconds counted `n` times: singular
/// for one, else with an `s`.
pub open spec fn time_unit_name(u: nat, n: nat) -> Seq<char> {
    let singular = if u == 31536000 {
        "year"@
    } else if u == 604800 {
        "week"@
    } else if u == 86400 {
        "day"@
    } else if u == 3600 {
        "hour"@
    } else if u == 60 {
        "minute"@
    } else {
        "second"@
    };
    if n == 1 {
        singular
    } else {
        singular + "s"@
    }
}

/// How a count of a unit is written: the number, a space, the unit's name.
pub open spec fn counted_part(p: (nat, nat)) -> Seq<char> {
    decimal(p.0) + " "@ + time_unit_name(p.1, p.0)
}

/// The seconds that counts of units add up to.
pub open spec fn parts_seconds(ps: Seq<(nat, nat)>) -> int
    decreases ps.len(),
{
    if ps.len() == 0 {
        0
    } else {
        parts_seconds(ps.drop_last()) + ps.last().0 * ps.last().1
    }
}

/// Positive counts of units, largest unit first, each unit at most once,
/// every unit at least `least`.
pub open spec fn ordered_counts(ps: Seq<(nat, nat)>, least: nat) -> bool {
    &&& forall|i: int| 0 <= i < ps.len() ==> #[trigger] ps[i].0 > 0 && is_time_unit(ps[i].1) && ps[i].1 >= least
    &&& forall|i: int, j: int| 0 <= i < j < ps.len() ==> #[trigger] ps[i].1 > #[trigger] ps[j].1
}

/// The count `n` of unit `u`, when there is any.
pub open spec fn count_of(n: nat, u: nat) -> Seq<(nat, nat)> {
    if n > 0 {
        seq![(n, u)]
    } else {
        Seq::empty()
    }
}

proof fn lemma_parts_seconds_concat(a: Seq<(nat, nat)>, b: Seq<(nat, nat)>)
    ensures
        parts_seconds(a + b) == parts_seconds(a) + parts_seconds(b),
    decreases b.len(),
{
    if b.len() == 0 {
        assert(a + b =~= a);
    } else {
        lemma_parts_seconds_concat(a, b.drop_last());
        assert((a + b).drop_last() =~= a + b.drop_last());
        assert((a + b).last() == b.last());
    }
}

proof fn lemma_add_count(acc: Seq<(nat, nat)>, prev: nat, n: nat, u: nat)
    requires
        ordered_counts(acc, prev),
        is_time_unit(u),
        u < prev,
    ensures
        ordered_counts(acc + count_of(n, u), u),
        parts_seconds(acc + count_of(n, u)) == parts_seconds(acc) + n * u,
{
    let r = acc + count_of(n, u);
    lemma_parts_seconds_concat(acc, count_of(n, u));
    if n > 0 {
        assert(parts_seconds(count_of(n, u)) == n * u) by {
            let c = count_of(n, u);
            assert(c.drop_last() =~= Seq::<(nat, nat)>::empty());
            assert(parts_seconds(Seq::<(nat, nat)>::empty()) == 0);
            assert(c.last() == (n, u));
        }
        assert forall|i: int, j: int| 0 <= i < j < r.len() implies #[trigger] r[i].1 > #[trigger] r[j].1 by {
            if j < acc.len() {
                assert(r[i] == acc[i] && r[j] == acc[j]);
            } else {
                assert(r[i] == acc[i]);
                assert(acc[i].1 >= prev);
            }
        }
        assert forall|i: int| 0 <= i < r.len() implies #[trigger] r[i].0 > 0 && is_time_unit(r[i].1) && r[i].1 >= u by {
            if i < acc.len() {
                assert(r[i] == acc[i]);
            }
        }
    } else {
        assert(r =~= acc);
        assert(parts_seconds(count_of(n, u)) == 0);
    }
}

proof fn lemma_count_written(n: nat, u: nat, singular: Seq<char>, plural: Seq<char>)
    requires
        singular == time_unit_name(u, 1),
        plural == time_unit_name(u, 2),
    ensures
        count_of(n, u).map_values(|p: (nat, nat)| counted_part(p)) == long_part(n as int, singular, plural),
{
    reveal_strlit(" ");
    if n > 0 {
        assert(" "@ =~= seq![' ']);
        if n != 1 {
            assert(time_unit_name(u, n) == time_unit_name(u, 2));
        }
        assert(count_of(n, u).map_values(|p: (nat, nat)| counted_part(p)) =~= seq![counted_part((n, u))]);
    } else {
        assert(count_of(n, u).map_values(|p: (nat, nat)| counted_part(p)) =~= Seq::<Seq<char>>::empty());
    }
}

/// The counts of years, weeks, days, hours, minutes and seconds in a
/// duration, largest unit first, those that are zero left out.
pub open spec fn duration_counts(d: nat) -> Seq<(nat, nat)> {
    let r1 = d % 31536000;
    let r2 = r1 % 604800;
    let r3 = r2 % 86400;
    let r4 = r3 % 3600;
    count_of(d / 31536000, 31536000) + count_of(r1 / 604800, 604800) + count_of(r2 / 86400, 86400)
        + count_of(r3 / 3600, 3600) + count_of(r4 / 60, 60) + count_of(r4 % 60, 1)
}

proof fn lemma_duration_counts_add_up(d: nat)
    ensures
        ordered_counts(duration_counts(d), 1),
        parts_seconds(duration_counts(d)) == d,
{
    let y = d / 31536000;
    let r1 = d % 31536000;
    let w = r1 / 604800;
    let r2 = r1 % 604800;
    let dd = r2 / 86400;
    let r3 = r2 % 86400;
    let h = r3 / 3600;
    let r4 = r3 % 3600;
    let m = r4 / 60;
    let sec = r4 % 60;
    let e = Seq::<(nat, nat)>::empty();
    assert(ordered_counts(e, 31536001));
    assert(parts_seconds(e) == 0);
    let p1 = e + count_of(y, 31536000);
    lemma_add_count(e, 31536001, y, 31536000);
    let p2 = p1 + count_of(w, 604800);
    lemma_add_count(p1, 31536000, w, 604800);
    let p3 = p2 + count_of(dd, 86400);
    lemma_add_count(p2, 604800, dd, 86400);
    let p4 = p3 + count_of(h, 3600);
    lemma_add_count(p3, 86400, h, 3600);
    let p5 = p4 + count_of(m, 60);
    lemma_add_count(p4, 3600, m, 60);
    lemma_add_count(p5, 60, sec, 1);
    assert(e + count_of(y, 31536000) =~= count_of(y, 31536000));
    assert(p5 + count_of(sec, 1) =~= duration_counts(d));
    assert(y * 31536000 + r1 == d && w * 604800 + r2 == r1 && dd * 86400 + r3 == r2 && h * 3600 + r4 == r3
        && m * 60 + sec == r4) by {
        vstd::arithmetic::div_mod::lemma_fundamental_div_mod(d as int, 31536000);
        vstd::arithmetic::div_mod::lemma_fundamental_div_mod(r1 as int, 604800);
        vstd::arithmetic::div_mod::lemma_fundamental_div_mod(r2 as int, 86400);
        vstd::arithmetic::div_mod::lemma_fundamental_div_mod(r3 as int, 3600);
        vstd::arithmetic::div_mod::lemma_fundamental_div_mod(r4 as int, 60);
    }
}

proof fn lemma_duration_counts_written(d: nat)
    ensures
        duration_counts(d).map_values(|p: (nat, nat)| counted_part(p)) == long_parts(d),
{
    let r1 = d % 31536000;
    let r2 = r1 % 604800;
    let r3 = r2 % 86400;
    let r4 = r3 % 3600;
    reveal_strlit("year");
    reveal_strlit("years");
    reveal_strlit("week");
    reveal_strlit("weeks");
    reveal_strlit("day");
    reveal_strlit("days");
    reveal_strlit("hour");
    reveal_strlit("hours");
    reveal_strlit("minute");
    reveal_strlit("minutes");
    reveal_strlit("second");
    reveal_strlit("seconds");
    reveal_strlit("s");
    assert("year"@ + "s"@ =~= "years"@);
    assert("week"@ + "s"@ =~= "weeks"@);
    assert("day"@ + "s"@ =~= "days"@);
    assert("hour"@ + "s"@ =~= "hours"@);
    assert("minute"@ + "s"@ =~= "minutes"@);
    assert("second"@ + "s"@ =~= "seconds"@);
    let a = count_of(d / 31536000, 31536000);
    let b = count_of(r1 / 604800, 604800);
    let c = count_of(r2 / 86400, 86400);
    let e = count_of(r3 / 3600, 3600);
    let g = count_of(r4 / 60, 60);
    let k = count_of(r4 % 60, 1);
    lemma_count_written(d / 31536000, 31536000, "year"@, "years"@);
    lemma_count_written(r1 / 604800, 604800, "week"@, "weeks"@);
    lemma_count_written(r2 / 86400, 86400, "day"@, "days"@);
    lemma_count_written(r3 / 3600, 3600, "hour"@, "hours"@);
    lemma_count_written(r4 / 60, 60, "minute"@, "minutes"@);
    lemma_count_written(r4 % 60, 1, "second"@, "seconds"@);
    let f = |p: (nat, nat)| counted_part(p);
    assert((a + b + c + e + g + k).map_values(f) =~= a.map_values(f) + b.map_values(f) + c.map_values(f)
        + e.map_values(f) + g.map_values(f) + k.map_values(f));
}

/// The long form of a duration, written without rounding, is exact: it
/// lists positive counts of years, weeks, days, hours, minutes and seconds,
/// largest unit first and each unit at most once, and those counts add up
/// to the duration. (Zero is written `0 seconds`.)
pub proof fn law_long_form_is_exact(d: nat)
    ensures
        d == 0 ==> spec_duration_long(d, false) == "0 seconds"@,
        d > 0 ==> exists|ps: Seq<(nat, nat)>| {
            &&& ordered_counts(ps, 1)
            &&& parts_seconds(ps) == d
            &&& spec_duration_long(d, false) == english_list(ps.map_values(|p: (nat, nat)| counted_part(p)))
        },
{
    if d > 0 {
        lemma_duration_counts_add_up(d);
        lemma_duration_counts_written(d);
        let ps = duration_counts(d);
        assert(spec_duration_long(d, false) == english_list(ps.map_values(|p: (nat, nat)| counted_part(p))));
    }
}

/// Joins the parts as an English list.
fn join_english(parts: &Vec<String>, g: Ghost<Seq<Seq<char>>>) -> (r: String)
    requires
        parts@.len() == g@.len(),
        forall|i: int| 0 <= i < g@.len() ==> #[trigger] parts@[i]@ == g@[i],
    ensures
        r@ == english_list(g@),
{
    let n = parts.len();
    if n == 0 {
        return String::new();
    }
    if n == 1 {
        return parts[0].clone();
    }
    if n == 2 {
        let mut s = parts[0].clone();
        s.append(" and ");
        s.append(parts[1].as_str());
        return s;
    }
    let mut s = parts[0].clone();
    let mut i: usize = 1;
    while i < n - 1
        invariant
            n == parts@.len(),
            n >= 3,
            1 <= i <= n - 1,
            parts@.len() == g@.len(),
            forall|k: int| 0 <= k < g@.len() ==> #[trigger] parts@[k]@ == g@[k],
            s@ == join_with(g@.take(i as int), ", "@),
        decreases n - 1 - i,
    {
        s.append(", ");
        s.append(parts[i].as_str());
        proof {
            assert(g@.take(i + 1).drop_last() =~= g@.take(i as int));
        }
        i = i + 1;
    }
    s.append(" and ");
    s.append(parts[n - 1].as_str());
    proof {
        assert(g@.take(i as int) =~= g@.drop_last());
    }
    s
}


/// One step of reading a duration: a digit extends the number being read,
/// a unit adds that many units to the total, any other byte fails.
pub open spec fn duration_step(st: Option<(int, int)>, c: u8) -> Option<(int, int)> {
    match st {
        None => None,
        Some((total, subtotal)) => if is_digit(c) {
            Some((total, subtotal * 10 + (c - 48)))
        } else if duration_unit(c) == 0 {
            None
        } else {
            Some((total + subtotal * duration_unit(c), 0))
        },
    }
}

/// The state after reading the bytes `q` from state `st`.
pub open spec fn duration_run(st: Option<(int, int)>, q: Seq<u8>) -> Option<(int, int)>
    decreases q.len(),
{
    if q.len() == 0 {
        st
    } else {
        duration_step(duration_run(st, q.drop_last()), q.last())
    }
}

/// The bytes of ASCII chars.
pub open spec fn ascii_bytes(cs: Seq<char>) -> Seq<u8> {
    Seq::new(cs.len(), |i: int| cs[i] as u8)
}

proof fn lemma_parse_state_is_run(s: Seq<u8>, n: int)
    requires
        0 <= n <= s.len(),
    ensures
        duration_parse_state(s, n) == duration_run(Some((0, 0)), s.take(n)),
    decreases n,
{
    if n > 0 {
        lemma_parse_state_is_run(s, n - 1);
        assert(s.take(n).drop_last() =~= s.take(n - 1));
    } else {
        assert(s.take(0).len() == 0);
    }
}

proof fn lemma_run_concat(st: Option<(int, int)>, a: Seq<u8>, b: Seq<u8>)
    ensures
        duration_run(st, a + b) == duration_run(duration_run(st, a), b),
    decreases b.len(),
{
    if b.len() == 0 {
        assert(a + b =~= a);
    } else {
        lemma_run_concat(st, a, b.drop_last());
        assert((a + b).drop_last() =~= a + b.drop_last());
        assert((a + b).last() == b.last());
    }
}

proof fn lemma_ascii_bytes_concat(x: Seq<char>, y: Seq<char>)
    ensures
        ascii_bytes(x + y) == ascii_bytes(x) + ascii_bytes(y),
{
    assert(ascii_bytes(x + y) =~= ascii_bytes(x) + ascii_bytes(y));
}

/// Reading the digits of `k` after a unit gives `k` as the number read.
proof fn lemma_run_decimal(t: int, k: nat)
    ensures
        duration_run(Some((t, 0)), ascii_bytes(decimal(k))) == Some((t, k as int)),
        is_ascii_chars(decimal(k)),
    decreases k,
{
    if k < 10 {
        let b = ascii_bytes(decimal(k));
        assert(decimal(k) == seq![digit_char(k as int)]);
        assert(b.len() == 1 && b.drop_last().len() == 0);
        assert(duration_run(Some((t, 0int)), b.drop_last()) == Some((t, 0int)));
        assert(digit_char(k as int) as u8 == 48 + k);
        assert(b.last() == (48 + k) as u8);
        assert(is_digit(b.last()));
        assert(duration_run(Some((t, 0int)), b) == duration_step(Some((t, 0int)), b.last()));
        assert(forall|i: int| 0 <= i < decimal(k).len() ==> '\0' <= #[trigger] decimal(k)[i] <= '\u{7f}');
    } else {
        lemma_run_decimal(t, k / 10);
        let last = seq![digit_char((k % 10) as int)];
        assert(decimal(k) == decimal(k / 10) + last);
        lemma_ascii_bytes_concat(decimal(k / 10), last);
        lemma_run_concat(Some((t, 0)), ascii_bytes(decimal(k / 10)), ascii_bytes(last));
        let lb = ascii_bytes(last);
        assert(lb.len() == 1 && lb.drop_last().len() == 0);
        assert(duration_run(Some((t, (k / 10) as int)), lb.drop_last()) == Some((t, (k / 10) as int)));
        assert(digit_char((k % 10) as int) as u8 == 48 + k % 10);
        assert(lb.last() == (48 + k % 10) as u8);
        assert(duration_run(Some((t, (k / 10) as int)), lb) == duration_step(Some((t, (k / 10) as int)), lb.last()));
        assert((k / 10) * 10 + k % 10 == k);
        assert forall|i: int| 0 <= i < decimal(k).len() implies '\0' <= #[trigger] decimal(k)[i] <= '\u{7f}' by {
            if i < decimal(k / 10).len() {
                assert(decimal(k)[i] == decimal(k / 10)[i]);
            }
        }
    }
}

/// Reading one part of a short duration adds its seconds to the total.
proof fn lemma_run_short_part(t: int, n: int, unit: char)
    requires
        n >= 0,
        unit == 'w' || unit == 'd' || unit == 'h' || unit == 'm' || unit == 's' || unit == 'y',
    ensures
        duration_run(Some((t, 0)), ascii_bytes(short_part(n, unit))) == Some((t + n * duration_unit(unit as u8), 0int)),
        is_ascii_chars(short_part(n, unit)),
{
    if n > 0 {
        lemma_run_decimal(t, n as nat);
        lemma_ascii_bytes_concat(decimal(n as nat), seq![unit]);
        lemma_run_concat(Some((t, 0)), ascii_bytes(decimal(n as nat)), ascii_bytes(seq![unit]));
        let ub = ascii_bytes(seq![unit]);
        assert(ub.len() == 1 && ub.drop_last().len() == 0 && ub.last() == unit as u8);
        assert(duration_run(Some((t, n)), ub.drop_last()) == Some((t, n)));
        assert(duration_run(Some((t, n)), ub) == duration_step(Some((t, n)), ub.last()));
        assert(!is_digit(unit as u8));
        assert forall|i: int| 0 <= i < short_part(n, unit).len() implies '\0' <= #[trigger] short_part(n, unit)[i]
            <= '\u{7f}' by {
            if i < decimal(n as nat).len() {
                assert(short_part(n, unit)[i] == decimal(n as nat)[i]);
            }
        }
    } else {
        assert(ascii_bytes(short_part(n, unit)).len() == 0);
    }
}

/// Reading the short text of a duration under a year gives the duration
/// back. (From a year on it does not: a year is written for 365 days and
/// read as 365.25.) The text is also read without overflow, so
/// `Duration::from_str` takes it.
pub proof fn law_duration_text_reads_back(d: nat)
    requires
        d < 31536000,
    ensures
        spec_duration_from(encode_utf8(spec_duration_short(d))) == Some(d as int),
        duration_fits(encode_utf8(spec_duration_short(d))),
{
    lemma_short_text_reads_back(d);
    law_duration_fits_when_total_fits(encode_utf8(spec_duration_short(d)));
}

#[verifier::spinoff_prover]
#[verifier::rlimit(40)]
proof fn lemma_short_text_reads_back(d: nat)
    requires
        d < 31536000,
    ensures
        spec_duration_from(encode_utf8(spec_duration_short(d))) == Some(d as int),
{
    let c = spec_duration_short(d);
    if d == 0 {
        let unit = seq!['s'];
        assert(decimal(0) == seq!['0']);
        assert(c =~= decimal(0) + unit);
        lemma_run_decimal(0, 0);
        lemma_ascii_bytes_concat(decimal(0), unit);
        lemma_run_concat(Some((0, 0)), ascii_bytes(decimal(0)), ascii_bytes(unit));
        let ub = ascii_bytes(unit);
        assert(ub.len() == 1 && ub.drop_last().len() == 0 && ub.last() == 115u8);
        assert(duration_run(Some((0int, 0int)), ub.drop_last()) == Some((0int, 0int)));
        assert(duration_run(Some((0int, 0int)), ub) == duration_step(Some((0int, 0int)), ub.last()));
        assert(is_ascii_chars(unit));
        is_ascii_chars_concat(c, decimal(0), unit);
        is_ascii_chars_encode_utf8(c);
        let b = encode_utf8(c);
        assert(b =~= ascii_bytes(c));
        lemma_parse_state_is_run(b, b.len() as int);
        assert(b.take(b.len() as int) =~= b);
    } else {
        let r1 = d % 31536000;
        let w = r1 / 604800;
        let r2 = r1 % 604800;
        let dd = r2 / 86400;
        let r3 = r2 % 86400;
        let h = r3 / 3600;
        let r4 = r3 % 3600;
        let m = r4 / 60;
        let sec = r4 % 60;
        assert(d / 31536000 == 0 && r1 == d);
        assert(short_part(0, 'y') == Seq::<char>::empty());
        let pw = short_part(w as int, 'w');
        let pd = short_part(dd as int, 'd');
        let ph = short_part(h as int, 'h');
        let pm = short_part(m as int, 'm');
        let ps = short_part(sec as int, 's');
        assert(c =~= pw + pd + ph + pm + ps);
        lemma_run_short_part(0, w as int, 'w');
        lemma_run_short_part((w * 604800) as int, dd as int, 'd');
        lemma_run_short_part((w * 604800 + dd * 86400) as int, h as int, 'h');
        lemma_run_short_part((w * 604800 + dd * 86400 + h * 3600) as int, m as int, 'm');
        lemma_run_short_part((w * 604800 + dd * 86400 + h * 3600 + m * 60) as int, sec as int, 's');
        lemma_ascii_bytes_concat(pw, pd);
        lemma_ascii_bytes_concat(pw + pd, ph);
        lemma_ascii_bytes_concat(pw + pd + ph, pm);
        lemma_ascii_bytes_concat(pw + pd + ph + pm, ps);
        lemma_run_concat(Some((0, 0)), ascii_bytes(pw), ascii_bytes(pd));
        lemma_run_concat(Some((0, 0)), ascii_bytes(pw + pd), ascii_bytes(ph));
        lemma_run_concat(Some((0, 0)), ascii_bytes(pw + pd + ph), ascii_bytes(pm));
        lemma_run_concat(Some((0, 0)), ascii_bytes(pw + pd + ph + pm), ascii_bytes(ps));
        is_ascii_chars_concat(pw + pd, pw, pd);
        is_ascii_chars_concat(pw + pd + ph, pw + pd, ph);
        is_ascii_chars_concat(pw + pd + ph + pm, pw + pd + ph, pm);
        is_ascii_chars_concat(c, pw + pd + ph + pm, ps);
        is_ascii_chars_encode_utf8(c);
        let b = encode_utf8(c);
        assert(b =~= ascii_bytes(c));
        lemma_parse_state_is_run(b, b.len() as int);
        assert(b.take(b.len() as int) =~= b);
        assert(w * 604800 + r2 == d);
        assert(dd * 86400 + r3 == r2);
        assert(h * 3600 + r4 == r3);
        assert(m * 60 + sec == r4);
    }
}

/// A decimal digit char.
pub open spec fn is_digit_char(c: char) -> bool {
    '0' <= c <= '9'
}

/// An uppercase ASCII letter or a decimal digit.
pub open spec fn is_upper_or_digit(c: char) -> bool {
    ('A' <= c <= 'Z') || is_digit_char(c)
}

/// A server ID: three bytes, a digit followed by two uppercase letters or
/// digits.
pub open spec fn spec_is_sid(s: &str) -> bool {
    &&& s.spec_bytes().len() == 3
    &&& s@.len() >= 3
    &&& is_digit_char(s@[0])
    &&& is_upper_or_digit(s@[1])
    &&& is_upper_or_digit(s@[2])
}

/// Checks if a string is a valid server ID.
pub fn is_sid(sid: &str) -> (r: bool)
    ensures
        r == spec_is_sid(sid),
{
    if sid.as_bytes().len() != 3 {
        return false;
    }
    let c = str_chars(sid);
    if c.len() < 3 {
        return false;
    }
    ('0' <= c[0] && c[0] <= '9') && (('A' <= c[1] && c[1] <= 'Z') || ('0' <= c[1] && c[1] <= '9'))
        && (('A' <= c[2] && c[2] <= 'Z') || ('0' <= c[2] && c[2] <= '9'))
}

/// An ASCII letter or digit.
pub open spec fn is_alnum_byte(b: u8) -> bool {
    (48 <= b <= 57) || (65 <= b <= 90) || (97 <= b <= 122)
}

fn alnum_byte(b: u8) -> (r: bool)
    ensures
        r == is_alnum_byte(b),
{
    (48 <= b && b <= 57) || (65 <= b && b <= 90) || (97 <= b && b <= 122)
}

/// A byte that may stand in a config word: an ASCII letter or digit, `-`,
/// `.` or `_`.
pub open spec fn spec_is_wordchar(b: u8) -> bool {
    is_alnum_byte(b) || b == 45 || b == 46 || b == 95
}

/// Checks if a byte is a word character.
pub fn is_wordchar(ch: u8) -> (r: bool)
    ensures
        r == spec_is_wordchar(ch),
{
    alnum_byte(ch) || ch == 45 || ch == 46 || ch == 95
}

/// A char in the range `A` to `}`, which holds the letters and the
/// characters `[\]^_` and `` ` `` and `{|}`.
pub open spec fn is_nick_letter(c: char) -> bool {
    'A' <= c <= '}'
}

/// A char that may follow the first char of a nickname.
pub open spec fn is_nick_char(c: char) -> bool {
    is_nick_letter(c) || is_digit_char(c) || c == '-'
}

/// A valid nickname: nonempty, at most `max_len` bytes, a letter first and
/// letters, digits or dashes after it.
pub open spec fn spec_is_nick(s: &str, max_len: nat) -> bool {
    &&& s@.len() > 0
    &&& s.spec_bytes().len() <= max_len
    &&& is_nick_letter(s@[0])
    &&& forall|i: int| 1 <= i < s@.len() ==> is_nick_char(#[trigger] s@[i])
}

/// Checks if a string is a valid nickname of at most `max_len` bytes.
pub fn is_nick(nick: &str, max_len: usize) -> (r: bool)
    ensures
        r == spec_is_nick(nick, max_len as nat),
{
    if nick.is_empty() || nick.as_bytes().len() > max_len {
        return false;
    }
    let c = str_chars(nick);
    if !('A' <= c[0] && c[0] <= '}') {
        return false;
    }
    let mut i: usize = 1;
    while i < c.len()
        invariant
            c@ == nick@,
            1 <= i <= c@.len(),
            forall|j: int| 1 <= j < i ==> is_nick_char(#[trigger] c@[j]),
        decreases c.len() - i,
    {
        let ch = c[i];
        if !(('A' <= ch && ch <= '}') || ('0' <= ch && ch <= '9') || ch == '-') {
            return false;
        }
        i = i + 1;
    }
    true
}

/// Which strings are nicknames: every nonempty string within the length
/// whose first char lies in `A`..=`}` (the letters and `[\]^_` `` ` `` `{|}`)
/// and whose other chars lie in that range or are digits or `-`; no other.
pub proof fn law_nick_chars(s: &str, max_len: nat)
    ensures
        spec_is_nick(s, max_len) <==> {
            &&& s@.len() > 0
            &&& s.spec_bytes().len() <= max_len
            &&& 'A' <= s@[0] <= '}'
            &&& forall|i: int| 1 <= i < s@.len() ==> {
                let c = #[trigger] s@[i];
                ('A' <= c <= '}') || ('0' <= c <= '9') || c == '-'
            }
        },
        (s@.len() > 0 && s.spec_bytes().len() <= max_len && forall|i: int|
            0 <= i < s@.len() ==> 'A' <= #[trigger] s@[i] <= '}') ==> spec_is_nick(s, max_len),
{
}

/// A char that may stand in a username.
pub open spec fn is_user_char(c: char) -> bool {
    is_nick_letter(c) || is_digit_char(c) || c == '-' || c == '.'
}

/// A valid username: nonempty, at most `max_len` bytes, of letters,
/// digits, dashes and dots.
pub open spec fn spec_is_user(s: &str, max_len: nat) -> bool {
    &&& s@.len() > 0
    &&& s.spec_bytes().len() <= max_len
    &&& forall|i: int| 0 <= i < s@.len() ==> is_user_char(#[trigger] s@[i])
}

/// Checks if a string is a valid username of at most `max_len` bytes.
pub fn is_user(user: &str, max_len: usize) -> (r: bool)
    ensures
        r == spec_is_user(user, max_len as nat),
{
    if user.is_empty() || user.as_bytes().len() > max_len {
        return false;
    }
    let c = str_chars(user);
    let mut i: usize = 0;
    while i < c.len()
        invariant
            c@ == user@,
            i <= c@.len(),
            forall|j: int| 0 <= j < i ==> is_user_char(#[trigger] c@[j]),
        decreases c.len() - i,
    {
        let ch = c[i];
        if !(('A' <= ch && ch <= '}') || ('0' <= ch && ch <= '9') || ch == '-' || ch == '.') {
            return false;
        }
        i = i + 1;
    }
    true
}

/// The number of times `c` occurs in `s`.
pub open spec fn count_char(s: Seq<char>, c: char) -> nat
    decreases s.len(),
{
    if s.len() == 0 {
        0
    } else {
        count_char(s.drop_last(), c) + (if s.last() == c {
            1nat
        } else {
            0nat
        })
    }
}

/// A printable ASCII char, from space to `~`.
pub open spec fn is_printable(c: char) -> bool {
    ' ' <= c <= '~'
}

/// A valid mask: nonempty, at most `max_len` bytes, of printable ASCII, with
/// exactly one `!` and exactly one `@`.
pub open spec fn spec_is_valid_mask(s: &str, max_len: nat) -> bool {
    &&& s@.len() > 0
    &&& s.spec_bytes().len() <= max_len
    &&& forall|i: int| 0 <= i < s@.len() ==> is_printable(#[trigger] s@[i])
    &&& count_char(s@, '!') == 1
    &&& count_char(s@, '@') == 1
}

/// Checks if a string is a valid `nick!user@host` mask of at most
/// `max_len` bytes.
pub fn is_valid_mask(mask: &str, max_len: usize) -> (r: bool)
    ensures
        r == spec_is_valid_mask(mask, max_len as nat),
{
    if mask.is_empty() || mask.as_bytes().len() > max_len {
        return false;
    }
    let c = str_chars(mask);
    let mut exclamation: usize = 0;
    let mut atsign: usize = 0;
    let mut i: usize = 0;
    while i < c.len()
        invariant
            c@ == mask@,
            i <= c@.len(),
            forall|j: int| 0 <= j < i ==> is_printable(#[trigger] c@[j]),
            exclamation == count_char(c@.take(i as int), '!'),
            atsign == count_char(c@.take(i as int), '@'),
            exclamation <= i,
            atsign <= i,
        decreases c.len() - i,
    {
        let ch = c[i];
        proof {
            assert(c@.take(i + 1).drop_last() =~= c@.take(i as int));
        }
        if ch < ' ' || ch > '~' {
            return false;
        }
        if ch == '!' {
            exclamation = exclamation + 1;
        } else if ch == '@' {
            atsign = atsign + 1;
        }
        i = i + 1;
    }
    proof {
        assert(c@.take(c@.len() as int) =~= c@);
    }
    exclamation == 1 && atsign == 1
}

/// A byte that may stand in a hostname.
pub open spec fn is_host_byte(b: u8) -> bool {
    is_alnum_byte(b) || b == 46 || b == 45
}

/// A label separator or a dash.
pub open spec fn is_host_punct(b: u8) -> bool {
    b == 46 || b == 45
}

/// A valid hostname: nonempty, at most `max_len` bytes, labels of letters,
/// digits and dashes separated by single dots, no label empty, no dash at
/// the start or end of a label, no two dashes in a row, and at least one
/// dot unless simple hostnames are allowed.
pub open spec fn spec_is_host(b: Seq<u8>, max_len: nat, allowsimple: bool) -> bool {
    &&& b.len() > 0
    &&& b.len() <= max_len
    &&& forall|i: int| 0 <= i < b.len() ==> is_host_byte(#[trigger] b[i])
    &&& !is_host_punct(b[0])
    &&& !is_host_punct(b[b.len() - 1])
    &&& forall|i: int|
        0 <= i < b.len() - 1 ==> !(is_host_punct(#[trigger] b[i]) && is_host_punct(b[i + 1]))
    &&& ((exists|i: int| 0 <= i < b.len() && b[i] == 46) || allowsimple)
}

/// Checks if a string is a valid hostname of at most `max_len` bytes.
pub fn is_host(host: &str, max_len: usize, allowsimple: bool) -> (r: bool)
    ensures
        r == spec_is_host(host.spec_bytes(), max_len as nat, allowsimple),
{
    let b = host.as_bytes();
    let n = b.len();
    if n == 0 || n > max_len {
        return false;
    }
    let mut seendot = false;
    let mut i: usize = 0;
    while i < n
        invariant
            b@ == host.spec_bytes(),
            n == b@.len(),
            0 < n,
            i <= n,
            forall|j: int| 0 <= j < i ==> is_host_byte(#[trigger] b@[j]),
            forall|j: int| 0 <= j < i ==> (is_host_punct(#[trigger] b@[j]) ==> 0 < j < n - 1),
            forall|j: int| 0 <= j < i - 1 ==> !(is_host_punct(#[trigger] b@[j]) && is_host_punct(
                b@[j + 1],
            )),
            seendot == (exists|j: int| 0 <= j < i && b@[j] == 46),
        decreases n - i,
    {
        let chr = b[i];
        if chr == 46 || chr == 45 {
            if i == 0 || i == n - 1 {
                return false;
            }
            let prev = b[i - 1];
            if prev == 46 || prev == 45 {
                return false;
            }
            if chr == 46 {
                seendot = true;
            }
        } else if !alnum_byte(chr) {
            return false;
        }
        i = i + 1;
    }
    seendot || allowsimple
}


/// One step of the xorshift generator.
pub open spec fn xorshift_step(s: u64) -> u64 {
    let a = s ^ (s >> 12u64);
    let b = a ^ (a << 25u64);
    b ^ (b >> 27u64)
}

/// The generator state after `k` steps from `seed`.
pub open spec fn xorshift_state(seed: u64, k: nat) -> u64
    decreases k,
{
    if k == 0 {
        seed
    } else {
        xorshift_step(xorshift_state(seed, (k - 1) as nat))
    }
}

/// The `n` bytes that the generator gives from `seed`: byte `i` is bits 33
/// to 40 of the state after `i + 1` steps.
pub open spec fn xorshift_bytes(seed: u64, n: nat) -> Seq<u8> {
    Seq::new(n, |i: int| (xorshift_state(seed, (i + 1) as nat) >> 33u64) as u8)
}

/// Fills `output` with the bytes that the xorshift generator gives from
/// `seed`.
pub fn xorshift_fill(output: &mut [u8], seed: u64)
    ensures
        final(output)@ == xorshift_bytes(seed, old(output)@.len()),
{
    let n = output.len();
    let mut state = seed;
    let mut i: usize = 0;
    while i < n
        invariant
            n == output@.len(),
            n == old(output)@.len(),
            i <= n,
            state == xorshift_state(seed, i as nat),
            forall|j: int| 0 <= j < i ==> output@[j] == xorshift_bytes(seed, n as nat)[j],
        decreases n - i,
    {
        state = state ^ (state >> 12u64);
        state = state ^ (state << 25u64);
        state = state ^ (state >> 27u64);
        output[i] = (state >> 33u64) as u8;
        i = i + 1;
    }
    proof {
        assert(output@ =~= xorshift_bytes(seed, n as nat));
    }
}

/// `SystemTime::elapsed` on the Unix epoch: the time in nanoseconds since
/// the epoch, truncated to 64 bits; 0 if the clock is before the epoch.
/// Nothing is promised of the value: it is the clock's.
#[verifier::external_body]
fn unix_time_nanos() -> u64 {
    match std::time::UNIX_EPOCH.elapsed() {
        Ok(d) => d.as_nanos() as u64,
        Err(_) => 0,
    }
}

/// Fills `output` with pseudo-random bytes from the xorshift generator,
/// seeded by the clock.
pub fn default_gen_random(output: &mut [u8])
    ensures
        exists|seed: u64| final(output)@ == xorshift_bytes(seed, old(output)@.len()),
{
    let seed = unix_time_nanos();
    xorshift_fill(output, seed);
}

/// The number in `[0, max)` that `gen_random_int` derives from a seed: 0
/// for `max` of at most 1, else one step of a linear congruential
/// generator taken modulo `max`.
pub open spec fn spec_random_int(seed: u64, max: u64) -> u64 {
    if max <= 1 {
        0
    } else {
        ((seed as int * 6364136223846793005 + 1) % 0x1_0000_0000_0000_0000 % (max as int)) as u64
    }
}

/// The number in `[0, max)` that the generator derives from `seed`.
pub fn random_int_from_seed(seed: u64, max: u64) -> (r: u64)
    ensures
        r == spec_random_int(seed, max),
        max > 1 ==> r < max,
        max <= 1 ==> r == 0,
{
    if max <= 1 {
        return 0;
    }
    let x = seed.wrapping_mul(6364136223846793005u64).wrapping_add(1);
    proof {
        assert(x == (seed as int * 6364136223846793005 + 1) % 0x1_0000_0000_0000_0000) by (nonlinear_arith)
            requires
                x == ((seed as int * 6364136223846793005) % 0x1_0000_0000_0000_0000 + 1)
                    % 0x1_0000_0000_0000_0000,
        ;
    }
    x % max
}

/// A pseudo-random number in `[0, max)` seeded by the clock; 0 when `max`
/// is at most 1.
pub fn gen_random_int(max: u64) -> (r: u64)
    ensures
        max <= 1 ==> r == 0,
        max > 1 ==> r < max,
        exists|seed: u64| r == spec_random_int(seed, max),
{
    let seed = unix_time_nanos();
    random_int_from_seed(seed, max)
}

/// The char at position `k` of the alphabet of random strings: the
/// lowercase letters, then the uppercase letters, then the digits.
pub open spec fn random_alphabet(k: int) -> char {
    if k < 26 {
        (('a' as int) + k) as char
    } else if k < 52 {
        (('A' as int) + k - 26) as char
    } else {
        (('0' as int) + k - 52) as char
    }
}

/// An ASCII letter or digit.
pub open spec fn is_alnum_char(c: char) -> bool {
    ('a' <= c <= 'z') || ('A' <= c <= 'Z') || ('0' <= c <= '9')
}

fn alphabet_char(k: u64) -> (c: char)
    requires
        k < 62,
    ensures
        c == random_alphabet(k as int),
        is_alnum_char(c),
{
    if k < 26 {
        ((97 + k) as u8) as char
    } else if k < 52 {
        ((65 + k - 26) as u8) as char
    } else {
        ((48 + k - 52) as u8) as char
    }
}

/// A pseudo-random string of `length` ASCII letters and digits.
pub fn gen_random_str(length: usize) -> (r: String)
    ensures
        r@.len() == length,
        forall|i: int| 0 <= i < length ==> #[trigger] is_alnum_char(r@[i]),
{
    let mut result = String::new();
    let mut i: usize = 0;
    while i < length
        invariant
            i <= length,
            result@.len() == i,
            forall|j: int| 0 <= j < i ==> #[trigger] is_alnum_char(result@[j]),
        decreases length - i,
    {
        let k = gen_random_int(62);
        let c = alphabet_char(k);
        crate::text::push_char(&mut result, c);
        i = i + 1;
    }
    result
}


/// Whether chrono represents the Unix timestamp `secs` as a UTC date and
/// time (it does for timestamps whose date lies in its supported range).
pub uninterp spec fn utc_timestamp_valid(secs: i64) -> bool;

/// What chrono writes for the UTC date and time of the Unix timestamp
/// `secs` under the strftime-style format `fmt`; `None` where the format
/// holds an invalid specifier.
pub uninterp spec fn utc_strftime(secs: i64, fmt: Seq<char>) -> Option<Seq<char>>;

/// `chrono::DateTime::<Utc>::from_timestamp(secs, 0)`: whether the
/// timestamp has a UTC date and time. The contract claims that the answer
/// depends on `secs` alone and that the epoch itself has one.
#[verifier::external_body]
fn utc_timestamp_in_range(secs: i64) -> (r: bool)
    ensures
        r == utc_timestamp_valid(secs),
        secs == 0 ==> r,
{
    chrono::DateTime::<chrono::Utc>::from_timestamp(secs, 0).is_some()
}

/// `chrono::DateTime::<Utc>::format(fmt).write_to(..)` on the UTC date and
/// time of `secs`: the formatted text, or `None` where chrono reports an
/// invalid format. The contract claims that the result depends on `secs`
/// and the format alone.
#[verifier::external_body]
fn format_utc_timestamp(secs: i64, fmt: &str) -> (r: Option<String>)
    requires
        utc_timestamp_valid(secs),
    ensures
        (r is Some) == (utc_strftime(secs, fmt@) is Some),
        r matches Some(s) ==> utc_strftime(secs, fmt@) == Some(s@),
{
    match chrono::DateTime::<chrono::Utc>::from_timestamp(secs, 0) {
        Some(dt) => {
            let mut s = String::new();
            match dt.format(fmt).write_to(&mut s) {
                Ok(()) => Some(s),
                Err(_) => None,
            }
        },
        None => None,
    }
}

/// Formatting of timestamps.
pub struct Time;

/// The format used when none is given: weekday, month, day, time, year.
pub open spec fn time_format(format: Option<&str>) -> Seq<char> {
    match format {
        Some(f) => f@,
        None => "%a %b %d %H:%M:%S %Y"@,
    }
}

/// The timestamp that is formatted: the given one where it has a UTC date
/// and time, else the epoch.
pub open spec fn time_secs(curtime: i64) -> i64 {
    if utc_timestamp_valid(curtime) {
        curtime
    } else {
        0
    }
}

impl Time {
    /// Formats a Unix timestamp as UTC date and time, with the given format
    /// or the default one. A timestamp out of range is formatted as the
    /// epoch. Times are always given in UTC.
    pub fn to_string(curtime: i64, format: Option<&str>, utc: bool) -> (r: String)
        requires
            utc_strftime(time_secs(curtime), time_format(format)) is Some,
        ensures
            utc_strftime(time_secs(curtime), time_format(format)) == Some(r@),
    {
        let secs = if utc_timestamp_in_range(curtime) {
            curtime
        } else {
            // the epoch always has a date
            let epoch_ok = utc_timestamp_in_range(0);
            0
        };
        let fmt = match format {
            Some(f) => f,
            None => "%a %b %d %H:%M:%S %Y",
        };
        match format_utc_timestamp(secs, fmt) {
            Some(s) => s,
            None => String::new(),
        }
    }

    /// Formats a Unix timestamp as `to_string` does, or gives `None` where
    /// the format holds an invalid specifier.
    pub fn try_to_string(curtime: i64, format: Option<&str>, utc: bool) -> (r: Option<String>)
        ensures
            (r is Some) == (utc_strftime(time_secs(curtime), time_format(format)) is Some),
            r matches Some(s) ==> utc_strftime(time_secs(curtime), time_format(format)) == Some(
                s@,
            ),
    {
        let secs = if utc_timestamp_in_range(curtime) {
            curtime
        } else {
            // the epoch always has a date
            let epoch_ok = utc_timestamp_in_range(0);
            0
        };
        let fmt = match format {
            Some(f) => f,
            None => "%a %b %d %H:%M:%S %Y",
        };
        match format_utc_timestamp(secs, fmt) {
            Some(_) => Some(Time::to_string(curtime, format, utc)),
            None => None,
        }
    }
}

} // verus!
