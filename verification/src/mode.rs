//! Channel and user modes: the kinds of modes, the characters that name
//! them, and the tidying of ban masks.

use vstd::prelude::*;
use crate::text::{str_chars, string_from_chars};

verus! {

/// Whether a mode applies to users or to channels.
#[allow(non_camel_case_types)]
#[derive(PartialEq, Eq, Structural, Clone, Copy, Debug)]
pub enum ModeType {
    /// User mode
    MODETYPE_USER,
    /// Channel mode
    MODETYPE_CHANNEL,
}

impl ModeType {
    /// The number that stands for the mode type across the C++ boundary.
    pub fn value(&self) -> (r: i32)
        ensures
            r == (match self {
                ModeType::MODETYPE_USER => 0i32,
                ModeType::MODETYPE_CHANNEL => 1i32,
            }),
    {
        match self {
            ModeType::MODETYPE_USER => 0,
            ModeType::MODETYPE_CHANNEL => 1,
        }
    }
}

/// The ranks of the standard prefix modes, to compare module-defined
/// prefixes with.
#[allow(non_camel_case_types)]
#[derive(PartialEq, Eq, Structural, Clone, Copy, Debug)]
pub enum PrefixModeValue {
    /// +v
    VOICE_VALUE,
    /// +h
    HALFOP_VALUE,
    /// +o
    OP_VALUE,
}

impl PrefixModeValue {
    /// The rank of the prefix mode.
    pub fn value(&self) -> (r: u32)
        ensures
            r == (match self {
                PrefixModeValue::VOICE_VALUE => 10000u32,
                PrefixModeValue::HALFOP_VALUE => 20000u32,
                PrefixModeValue::OP_VALUE => 30000u32,
            }),
    {
        match self {
            PrefixModeValue::VOICE_VALUE => 10000,
            PrefixModeValue::HALFOP_VALUE => 20000,
            PrefixModeValue::OP_VALUE => 30000,
        }
    }
}

/// When a mode takes a parameter.
#[allow(non_camel_case_types)]
#[derive(PartialEq, Eq, Structural, Clone, Copy, Debug)]
pub enum ParamSpec {
    /// No parameters
    PARAM_NONE,
    /// Parameter required on mode setting only
    PARAM_SETONLY,
    /// Parameter always required
    PARAM_ALWAYS,
}

impl ParamSpec {
    /// The number that stands for the parameter rule across the C++
    /// boundary.
    pub fn value(&self) -> (r: i32)
        ensures
            r == (match self {
                ParamSpec::PARAM_NONE => 0i32,
                ParamSpec::PARAM_SETONLY => 1i32,
                ParamSpec::PARAM_ALWAYS => 2i32,
            }),
    {
        match self {
            ParamSpec::PARAM_NONE => 0,
            ParamSpec::PARAM_SETONLY => 1,
            ParamSpec::PARAM_ALWAYS => 2,
        }
    }
}

/// The class of a mode handler.
#[allow(non_camel_case_types)]
#[derive(PartialEq, Eq, Structural, Clone, Copy, Debug)]
pub enum ModeHandlerClass {
    MC_PREFIX,
    MC_LIST,
    MC_PARAM,
    MC_OTHER,
}

impl ModeHandlerClass {
    /// The number that stands for the class across the C++ boundary.
    pub fn value(&self) -> (r: i32)
        ensures
            r == (match self {
                ModeHandlerClass::MC_PREFIX => 0i32,
                ModeHandlerClass::MC_LIST => 1i32,
                ModeHandlerClass::MC_PARAM => 2i32,
                ModeHandlerClass::MC_OTHER => 3i32,
            }),
    {
        match self {
            ModeHandlerClass::MC_PREFIX => 0,
            ModeHandlerClass::MC_LIST => 1,
            ModeHandlerClass::MC_PARAM => 2,
            ModeHandlerClass::MC_OTHER => 3,
        }
    }
}

/// The maximum number of modes which can be created.
pub const MODEID_MAX: usize = 64;

/// The maximum length of a mode parameter.
pub const MODE_PARAM_MAX: usize = 250;

/// A byte that names a mode: an ASCII digit or letter.
pub open spec fn spec_is_mode_char(c: u8) -> bool {
    ('0' as u8 <= c <= '9' as u8) || ('A' as u8 <= c <= 'Z' as u8) || ('a' as u8 <= c <= 'z' as u8)
}

/// Determines whether the specified character is a valid mode.
pub fn is_mode_char(c: u8) -> (r: bool)
    ensures
        r == spec_is_mode_char(c),
{
    ('0' as u8 <= c && c <= '9' as u8) || ('A' as u8 <= c && c <= 'Z' as u8) || ('a' as u8 <= c
        && c <= 'z' as u8)
}

/// The index of a mode char within a mode bitset: the digits take 0 to 9,
/// the uppercase letters 10 to 35 and the lowercase letters 36 to 61;
/// any other byte gives `MODEID_MAX`.
pub open spec fn spec_mode_index(c: u8) -> int {
    if '0' as u8 <= c <= '9' as u8 {
        c - '0' as u8
    } else if 'A' as u8 <= c <= 'Z' as u8 {
        c - 'A' as u8 + 10
    } else if 'a' as u8 <= c <= 'z' as u8 {
        c - 'a' as u8 + 36
    } else {
        MODEID_MAX as int
    }
}

/// Retrieves the index of the specified mode char within a mode bitset.
pub fn get_mode_index(c: u8) -> (r: usize)
    ensures
        r == spec_mode_index(c),
{
    if '0' as u8 <= c && c <= '9' as u8 {
        return (c - '0' as u8) as usize;
    }
    if 'A' as u8 <= c && c <= 'Z' as u8 {
        return (c - 'A' as u8 + 10) as usize;
    }
    if 'a' as u8 <= c && c <= 'z' as u8 {
        return (c - 'a' as u8 + 36) as usize;
    }
    MODEID_MAX
}

/// Distinct mode chars have distinct indexes below `MODEID_MAX`, and
/// other bytes get `MODEID_MAX`.
pub proof fn law_mode_index_is_injective(a: u8, b: u8)
    ensures
        spec_is_mode_char(a) ==> 0 <= spec_mode_index(a) < 62,
        !spec_is_mode_char(a) ==> spec_mode_index(a) == MODEID_MAX,
        spec_is_mode_char(a) && spec_is_mode_char(b) && a != b ==> spec_mode_index(a)
            != spec_mode_index(b),
{
}

/// The index of the first `c` in `s` at or after `from`.
pub open spec fn find_char_from(s: Seq<char>, c: char, from: int) -> Option<int>
    decreases s.len() - from,
{
    if from < 0 || from >= s.len() {
        None
    } else if s[from] == c {
        Some(from)
    } else {
        find_char_from(s, c, from + 1)
    }
}

/// The index of the first `.` or `:` in `s` at or after `from`.
pub open spec fn find_host_char_from(s: Seq<char>, from: int) -> Option<int>
    decreases s.len() - from,
{
    if from < 0 || from >= s.len() {
        None
    } else if s[from] == '.' || s[from] == ':' {
        Some(from)
    } else {
        find_host_char_from(s, from + 1)
    }
}

/// A ban mask made acceptable where fields are left out. With `p` the
/// first `!`, `a` the first `@` (after the `!` where there is one) and `h`
/// the first `.` or `:`: a `*` is appended when the `!` or `@` ends the
/// mask and prepended when one of them begins it. Then a mask with neither
/// `!` nor `@` is a nick (`nick!*@*`) or, where it holds `h`, a host
/// (`*!*@host`); one with an `@` but no `!` gets `*!` in front
/// (`*!user@host`); one with a `!` but no `@` gets `@*` appended; and where
/// the `@` directly follows the `!` a `*` is put in at the original
/// position of the `@`.
pub open spec fn spec_clean_mask(m: Seq<char>) -> Seq<char> {
    let len = m.len();
    let pling = find_char_from(m, '!', 0);
    let at = match pling {
        Some(p) => find_char_from(m, '@', p),
        None => find_char_from(m, '@', 0),
    };
    let hostchar = find_host_char_from(m, 0);
    let s1 = if pling == Some(len - 1) || at == Some(len - 1) {
        m.push('*')
    } else {
        m
    };
    let s2 = if pling == Some(0int) || at == Some(0int) {
        seq!['*'] + s1
    } else {
        s1
    };
    match (pling, at) {
        (None, None) => if hostchar is None {
            s2 + "!*@*"@
        } else {
            "*!*@"@ + s2
        },
        (None, Some(_)) => "*!"@ + s2,
        (Some(_), None) => s2 + "@*"@,
        (Some(p), Some(a)) => if a - p == 1 {
            s2.insert(a, '*')
        } else {
            s2
        },
    }
}

fn find_host_char_in(v: &Vec<char>) -> (r: Option<usize>)
    ensures
        r matches Some(p) ==> find_host_char_from(v@, 0) == Some(p as int) && p < v@.len(),
        r is None ==> find_host_char_from(v@, 0) is None,
{
    let mut i: usize = 0;
    while i < v.len()
        invariant
            i <= v@.len(),
            find_host_char_from(v@, 0) == find_host_char_from(v@, i as int),
        decreases v.len() - i,
    {
        if v[i] == '.' || v[i] == ':' {
            return Some(i);
        }
        i = i + 1;
    }
    None
}

fn prepend_str_chars(v: &mut Vec<char>, s: &str)
    ensures
        final(v)@ == s@ + old(v)@,
{
    let mut w = str_chars(s);
    let mut i: usize = 0;
    while i < v.len()
        invariant
            w@ == s@ + old(v)@.take(i as int),
            v@ == old(v)@,
            i <= v@.len(),
        decreases v.len() - i,
    {
        w.push(v[i]);
        proof {
            assert(old(v)@.take(i + 1) =~= old(v)@.take(i as int).push(old(v)@[i as int]));
            assert(s@ + old(v)@.take(i + 1) =~= (s@ + old(v)@.take(i as int)).push(old(v)@[i as int]));
        }
        i = i + 1;
    }
    proof {
        assert(old(v)@.take(v@.len() as int) =~= old(v)@);
    }
    *v = w;
}

fn find_char_in(v: &Vec<char>, c: char, from: usize) -> (r: Option<usize>)
    requires
        from <= v@.len(),
    ensures
        r matches Some(p) ==> find_char_from(v@, c, from as int) == Some(p as int) && from <= p
            < v@.len(),
        r is None ==> find_char_from(v@, c, from as int) is None,
{
    let mut i = from;
    while i < v.len()
        invariant
            from <= i <= v@.len(),
            find_char_from(v@, c, from as int) == find_char_from(v@, c, i as int),
        decreases v.len() - i,
    {
        if v[i] == c {
            return Some(i);
        }
        i = i + 1;
    }
    None
}

fn push_str_chars(v: &mut Vec<char>, s: &str)
    ensures
        final(v)@ == old(v)@ + s@,
{
    let c = str_chars(s);
    let mut i: usize = 0;
    while i < c.len()
        invariant
            c@ == s@,
            i <= c@.len(),
            v@ == old(v)@ + c@.take(i as int),
        decreases c.len() - i,
    {
        v.push(c[i]);
        proof {
            assert(c@.take(i + 1) =~= c@.take(i as int).push(c@[i as int]));
        }
        i = i + 1;
    }
    proof {
        assert(c@.take(c@.len() as int) =~= c@);
    }
}

/// Tidies a ban mask, making it acceptable where fields are left out.
pub fn clean_mask(mask: &str) -> (r: String)
    requires
        mask@.len() > 0,
    ensures
        r@ == spec_clean_mask(mask@),
{
    let mut v = str_chars(mask);
    let len = v.len();
    let pling = find_char_in(&v, '!', 0);
    let at = match pling {
        Some(p) => find_char_in(&v, '@', p),
        None => find_char_in(&v, '@', 0),
    };
    let hostchar = find_host_char_in(&v);
    let ghost m = mask@;
    let ghost s1 = if pling == Some((len - 1) as usize) || at == Some((len - 1) as usize) {
        m.push('*')
    } else {
        m
    };
    if pling == Some(len - 1) || at == Some(len - 1) {
        v.push('*');
    }
    proof {
        assert(v@ == s1);
    }
    if pling == Some(0) || at == Some(0) {
        v.insert(0, '*');
        proof {
            assert(v@ =~= seq!['*'] + s1);
        }
    }
    match pling {
        None => match at {
            None => {
                if hostchar.is_none() {
                    push_str_chars(&mut v, "!*@*");
                } else {
                    prepend_str_chars(&mut v, "*!*@");
                }
            },
            Some(_) => {
                prepend_str_chars(&mut v, "*!");
            },
        },
        Some(p) => match at {
            None => {
                push_str_chars(&mut v, "@*");
            },
            Some(a) => {
                if a - p == 1 {
                    v.insert(a, '*');
                }
            },
        },
    }
    string_from_chars(&v, 0, v.len())
}

} // verus!
