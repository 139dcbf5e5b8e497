//! X-lines: splitting a `user@host` mask into its parts.

use vstd::prelude::*;
use crate::text::{str_chars, string_from_chars};

verus! {

/// The user and host parts of a mask.
pub struct RustUserHostPair {
    pub user: String,
    pub host: String,
}

/// The index of the first `@` in `s`.
pub open spec fn first_at(s: Seq<char>) -> Option<int> {
    if exists|i: int| 0 <= i < s.len() && s[i] == '@' {
        Some(choose|i: int| 0 <= i < s.len() && s[i] == '@' && forall|k: int| 0 <= k < i ==> s[k] != '@')
    } else {
        None
    }
}

/// The user and host of a mask: split at the first `@`, an empty part
/// standing as `*`; with no `@`, an empty user and the whole mask as host.
pub open spec fn spec_split_user_host(s: Seq<char>) -> (Seq<char>, Seq<char>) {
    match first_at(s) {
        Some(x) => {
            let user = if x > 0 {
                s.subrange(0, x)
            } else {
                seq!['*']
            };
            let host = if x + 1 < s.len() {
                s.subrange(x + 1, s.len() as int)
            } else {
                seq!['*']
            };
            (user, host)
        },
        None => (Seq::empty(), s),
    }
}

/// Splits a `user@host` string into user and host parts.
pub fn split_user_host(user_and_host: &str) -> (r: RustUserHostPair)
    ensures
        (r.user@, r.host@) == spec_split_user_host(user_and_host@),
{
    let v = str_chars(user_and_host);
    let n = v.len();
    let mut i: usize = 0;
    while i < n
        invariant
            n == v@.len(),
            v@ == user_and_host@,
            i <= n,
            forall|k: int| 0 <= k < i ==> v@[k] != '@',
        decreases n - i,
    {
        if v[i] == '@' {
            proof {
                let c = choose|c: int| 0 <= c < v@.len() && v@[c] == '@' && forall|k: int| 0 <= k < c ==> v@[k] != '@';
                if c < i {
                    assert(v@[c] != '@');
                }
                if c > i {
                    assert(v@[i as int] != '@');
                }
                assert(first_at(user_and_host@) == Some(i as int));
            }
            let user = if i > 0 {
                string_from_chars(&v, 0, i)
            } else {
                String::from_str("*")
            };
            let host = if i + 1 < n {
                string_from_chars(&v, i + 1, n)
            } else {
                String::from_str("*")
            };
            proof {
                reveal_strlit("*");
            }
            return RustUserHostPair { user, host };
        }
        i = i + 1;
    }
    RustUserHostPair { user: String::new(), host: string_from_chars(&v, 0, n) }
}

} // verus!
