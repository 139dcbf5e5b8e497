//! The decisions of the bladedance module: where its configuration names
//! the database, when the database is to be connected, a user's level and
//! the answer to WHOAMI. The module does the database work itself.

use vstd::prelude::*;
use crate::text::{chars_match_at, decimal, push_char, push_decimal, push_str, str_chars, string_from_chars};

verus! {

/// The database the module uses unless its configuration names another.
pub fn default_mongo_uri() -> (r: String)
    ensures
        r@ == "mongodb://127.0.0.1:27017"@,
{
    String::from_str("mongodb://127.0.0.1:27017")
}

/// `pat` occurs in `s` at `i`.
pub open spec fn occurs_at(s: Seq<char>, pat: Seq<char>, i: int) -> bool {
    0 <= i && i + pat.len() <= s.len() && s.subrange(i, i + pat.len()) == pat
}

/// The first position where `pat` occurs in `s`.
#[verifier::opaque]
pub open spec fn first_occurrence(s: Seq<char>, pat: Seq<char>) -> Option<int> {
    if exists|i: int| occurs_at(s, pat, i) {
        Some(choose|i: int| occurs_at(s, pat, i) && forall|j: int| 0 <= j < i ==> !occurs_at(s, pat, j))
    } else {
        None
    }
}

/// The first position where `pat` occurs in `s`, as `str::find` finds it.
pub fn find_chars(s: &Vec<char>, pat: &Vec<char>) -> (r: Option<usize>)
    ensures
        match r {
            Some(i) => first_occurrence(s@, pat@) == Some(i as int) && occurs_at(s@, pat@, i as int),
            None => first_occurrence(s@, pat@) is None,
        },
{
    if pat.len() > s.len() {
        proof {
            reveal(first_occurrence);
            assert forall|i: int| !occurs_at(s@, pat@, i) by {}
        }
        return None;
    }
    let last = s.len() - pat.len();
    let mut i: usize = 0;
    while i <= last
        invariant
            last == s@.len() - pat@.len(),
            i <= last + 1,
            forall|j: int| 0 <= j < i ==> !occurs_at(s@, pat@, j),
        decreases last + 1 - i,
    {
        if chars_match_at(s, i, pat) {
            proof {
                reveal(first_occurrence);
                assert(occurs_at(s@, pat@, i as int));
                let k = choose|k: int| occurs_at(s@, pat@, k) && forall|j: int| 0 <= j < k ==> !occurs_at(s@, pat@, j);
                assert(k == i) by {
                    if k < i {
                        assert(!occurs_at(s@, pat@, k));
                    } else if k > i {
                        assert(!occurs_at(s@, pat@, i as int));
                    }
                }
            }
            return Some(i);
        }
        if i == last {
            proof {
                reveal(first_occurrence);
                assert forall|j: int| !occurs_at(s@, pat@, j) by {
                    if 0 <= j && j > last {
                        assert(j + pat@.len() > s@.len());
                    }
                }
            }
            return None;
        }
        i = i + 1;
    }
    proof {
        reveal(first_occurrence);
    }
    None
}

/// Where a token of the configuration ends: at a line feed or a space.
pub open spec fn is_uri_end(c: char) -> bool {
    c == '\n' || c == ' '
}

/// The first position from `from` on whose char ends a token, or the end.
pub open spec fn token_end_from(s: Seq<char>, from: int) -> int
    decreases s.len() - from,
{
    if from >= s.len() || from < 0 {
        s.len() as int
    } else if is_uri_end(s[from]) {
        from
    } else {
        token_end_from(s, from + 1)
    }
}

/// The database named by the configuration: what follows the first
/// `mongouri=`, up to a line feed or a space.
pub open spec fn spec_config_mongo_uri(config: Seq<char>) -> Option<Seq<char>> {
    match first_occurrence(config, "mongouri="@) {
        Some(p) => Some(config.subrange(p + 9, token_end_from(config, p + 9))),
        None => None,
    }
}

/// The database named by the configuration, if it names one.
pub fn config_mongo_uri(config: &str) -> (r: Option<String>)
    ensures
        match spec_config_mongo_uri(config@) {
            Some(u) => r matches Some(s) && s@ == u,
            None => r is None,
        },
{
    let v = str_chars(config);
    let key = str_chars("mongouri=");
    assert(key@.len() == 9) by {
        reveal_strlit("mongouri=");
    }
    let n = v.len();
    let start = match find_chars(&v, &key) {
        Some(p) => p + 9,
        None => return None,
    };
    let mut e = start;
    while e < v.len() && v[e] != '\n' && v[e] != ' '
        invariant
            v@ == config@,
            start <= e <= v@.len(),
            token_end_from(v@, start as int) == token_end_from(v@, e as int),
        decreases v.len() - e,
    {
        e = e + 1;
    }
    assert(token_end_from(v@, e as int) == e);
    Some(string_from_chars(&v, start, e))
}

/// The database is connected when it is neither connected nor connecting.
pub fn needs_database_init(initialized: bool, initializing: bool) -> (r: bool)
    ensures
        r == (!initialized && !initializing),
{
    !initialized && !initializing
}

/// A user's level where no lookup is needed: 4 for an operator, 0 for a
/// user with no account name (or an empty one); `None` where the level is
/// to be looked up by account name.
pub fn level_without_lookup(is_oper: bool, account: Option<&str>) -> (r: Option<i32>)
    ensures
        r == (if is_oper {
            Some(4i32)
        } else {
            match account {
                Some(a) => if a@.len() == 0 {
                    Some(0i32)
                } else {
                    None
                },
                None => Some(0i32),
            }
        }),
{
    if is_oper {
        return Some(4);
    }
    match account {
        Some(a) => {
            let v = str_chars(a);
            if v.len() == 0 {
                Some(0)
            } else {
                None
            }
        },
        None => Some(0),
    }
}

/// The decimal form of an integer, with a leading `-` when negative.
pub open spec fn signed_decimal(n: int) -> Seq<char> {
    if n < 0 {
        seq!['-'] + decimal((-n) as nat)
    } else {
        decimal(n as nat)
    }
}

/// The answer to WHOAMI: `Account: <name> | Level: <level>`, with `none`
/// for a user without an account.
pub fn whoami_message(account: Option<&str>, level: i32) -> (r: String)
    ensures
        r@ == "Account: "@ + (match account {
            Some(a) => a@,
            None => "none"@,
        }) + " | Level: "@ + signed_decimal(level as int),
{
    let mut s = String::from_str("Account: ");
    match account {
        Some(a) => push_str(&mut s, a),
        None => push_str(&mut s, "none"),
    }
    push_str(&mut s, " | Level: ");
    let ghost before = s@;
    if level < 0 {
        push_char(&mut s, '-');
        let m: u64 = (0i64 - level as i64) as u64;
        push_decimal(&mut s, m);
        proof {
            assert(s@ =~= before + signed_decimal(level as int));
        }
    } else {
        push_decimal(&mut s, level as u64);
    }
    s
}

} // verus!
