//! Glob matching of IRC masks: `*` matches any run of bytes, `?` matches
//! any single byte, every other byte matches any byte with the same image
//! under the case map in use.

use vstd::prelude::*;
use vstd::string::StringSliceAdditionalSpecFns;
use crate::cidr::{match_cidr_bytes, spec_match_cidr};

verus! {

/// The wildcard byte `*`.
pub open spec fn is_star(b: u8) -> bool {
    b == 42u8
}

/// A non-star pattern byte `w` accepts the string byte `c`.
pub open spec fn char_matches(map: Seq<u8>, w: u8, c: u8) -> bool {
    w == 63u8 || map[w as int] == map[c as int]
}

/// Whether the suffix `s[i..]` matches the pattern suffix `w[j..]`.
pub open spec fn glob_from(map: Seq<u8>, s: Seq<u8>, i: int, w: Seq<u8>, j: int) -> bool
    decreases s.len() - i + w.len() - j,
{
    if i < 0 || j < 0 || i > s.len() || j > w.len() {
        false
    } else if j == w.len() {
        i == s.len()
    } else if is_star(w[j]) {
        glob_from(map, s, i, w, j + 1) || (i < s.len() && glob_from(map, s, i + 1, w, j))
    } else {
        i < s.len() && char_matches(map, w[j], s[i]) && glob_from(map, s, i + 1, w, j + 1)
    }
}

/// Whether the whole string `s` matches the whole pattern `w`.
pub open spec fn glob_match(map: Seq<u8>, s: Seq<u8>, w: Seq<u8>) -> bool {
    glob_from(map, s, 0, w, 0)
}

/// Some suffix of `s` starting at or after `c` matches `w[j..]`.
pub open spec fn match_some_suffix(map: Seq<u8>, s: Seq<u8>, w: Seq<u8>, j: int, c: int) -> bool {
    exists|k: int| c <= k <= s.len() && #[trigger] glob_from(map, s, k, w, j)
}

/// The pattern bytes `w[j..j+n]` are literal and accept `s[i..i+n]`.
pub open spec fn literal_run(map: Seq<u8>, s: Seq<u8>, i: int, w: Seq<u8>, j: int, n: int) -> bool {
    &&& 0 <= n
    &&& 0 <= i
    &&& 0 <= j
    &&& i + n <= s.len()
    &&& j + n <= w.len()
    &&& forall|t: int|
        0 <= t < n ==> !is_star(#[trigger] w[j + t]) && char_matches(map, w[j + t], s[i + t])
}

/// The pattern bytes `w[j..]` are all `*`.
pub open spec fn all_stars_from(w: Seq<u8>, j: int) -> bool {
    forall|t: int| j <= t < w.len() ==> is_star(#[trigger] w[t])
}

/// Matching across a literal run does not depend on where the run is split.
proof fn lemma_literal_run(map: Seq<u8>, s: Seq<u8>, i: int, w: Seq<u8>, j: int, n: int)
    requires
        literal_run(map, s, i, w, j, n),
    ensures
        glob_from(map, s, i, w, j) == glob_from(map, s, i + n, w, j + n),
    decreases n,
{
    if n > 0 {
        assert(!is_star(w[j + 0]));
        assert(literal_run(map, s, i + 1, w, j + 1, n - 1)) by {
            assert forall|t: int| 0 <= t < n - 1 implies !is_star(#[trigger] w[j + 1 + t])
                && char_matches(map, w[j + 1 + t], s[i + 1 + t]) by {
                assert(w[j + (t + 1)] == w[j + 1 + t]);
                assert(s[i + (t + 1)] == s[i + 1 + t]);
            }
        }
        lemma_literal_run(map, s, i + 1, w, j + 1, n - 1);
    }
}

/// A match of `w[j..]` whose first `n` pattern bytes are literal consumes
/// exactly `n` bytes of the string before reaching `w[j+n..]`.
proof fn lemma_consume_literal(map: Seq<u8>, s: Seq<u8>, k: int, w: Seq<u8>, j: int, n: int)
    requires
        0 <= n,
        0 <= j,
        j + n <= w.len(),
        forall|t: int| 0 <= t < n ==> !is_star(#[trigger] w[j + t]),
        glob_from(map, s, k, w, j),
    ensures
        k + n <= s.len(),
        glob_from(map, s, k + n, w, j + n),
    decreases n,
{
    if n > 0 {
        assert(!is_star(w[j + 0]));
        assert forall|t: int| 0 <= t < n - 1 implies !is_star(#[trigger] w[j + 1 + t]) by {
            assert(w[j + (t + 1)] == w[j + 1 + t]);
        }
        lemma_consume_literal(map, s, k + 1, w, j + 1, n - 1);
    }
}

/// A `*` at `w[j]` lets `w[j+1..]` match any later suffix.
proof fn lemma_star(map: Seq<u8>, s: Seq<u8>, i: int, w: Seq<u8>, j: int)
    requires
        0 <= i <= s.len(),
        0 <= j < w.len(),
        is_star(w[j]),
    ensures
        glob_from(map, s, i, w, j) == match_some_suffix(map, s, w, j + 1, i),
    decreases s.len() - i,
{
    if i < s.len() {
        lemma_star(map, s, i + 1, w, j);
        if match_some_suffix(map, s, w, j + 1, i) {
            let k = choose|k: int| i <= k <= s.len() && #[trigger] glob_from(map, s, k, w, j + 1);
            if k > i {
                assert(match_some_suffix(map, s, w, j + 1, i + 1));
            }
        }
        if match_some_suffix(map, s, w, j + 1, i + 1) {
            let k = choose|k: int| i + 1 <= k <= s.len() && #[trigger] glob_from(map, s, k, w, j + 1);
            assert(glob_from(map, s, k, w, j + 1));
        }
        if glob_from(map, s, i, w, j + 1) {
            assert(match_some_suffix(map, s, w, j + 1, i));
        }
    } else {
        if match_some_suffix(map, s, w, j + 1, i) {
            let k = choose|k: int| i <= k <= s.len() && #[trigger] glob_from(map, s, k, w, j + 1);
            assert(k == i);
        }
        if glob_from(map, s, i, w, j + 1) {
            assert(match_some_suffix(map, s, w, j + 1, i));
        }
    }
}

/// The empty suffix matches exactly the all-`*` pattern suffixes.
proof fn lemma_empty_suffix(map: Seq<u8>, s: Seq<u8>, w: Seq<u8>, j: int)
    requires
        0 <= j <= w.len(),
    ensures
        glob_from(map, s, s.len() as int, w, j) == all_stars_from(w, j),
    decreases w.len() - j,
{
    if j < w.len() {
        lemma_empty_suffix(map, s, w, j + 1);
        if !is_star(w[j]) {
            assert(!all_stars_from(w, j));
        }
    }
}

/// Once `*` is followed by the literal run `w[mp..wi]`, matched at
/// `s[c..c+n]`, and another `*` at `w[wi]`, only matches of `w[wi+1..]`
/// from `s[c+n..]` onward need to be considered.
proof fn lemma_commit_star(map: Seq<u8>, s: Seq<u8>, w: Seq<u8>, mp: int, c: int, n: int)
    requires
        literal_run(map, s, c, w, mp, n),
        mp + n < w.len(),
        is_star(w[mp + n]),
    ensures
        match_some_suffix(map, s, w, mp, c) == match_some_suffix(map, s, w, mp + n + 1, c + n),
{
    lemma_star(map, s, c + n, w, mp + n);
    if match_some_suffix(map, s, w, mp + n + 1, c + n) {
        lemma_literal_run(map, s, c, w, mp, n);
        assert(glob_from(map, s, c, w, mp));
    }
    if match_some_suffix(map, s, w, mp, c) {
        let k = choose|k: int| c <= k <= s.len() && #[trigger] glob_from(map, s, k, w, mp);
        assert forall|t: int| 0 <= t < n implies !is_star(#[trigger] w[mp + t]) by {}
        lemma_consume_literal(map, s, k, w, mp, n);
        lemma_star(map, s, k + n, w, mp + n);
        let k2 = choose|k2: int| k + n <= k2 <= s.len() && #[trigger] glob_from(map, s, k2, w, mp + n + 1);
        assert(glob_from(map, s, k2, w, mp + n + 1));
    }
}

/// Matches a string against a wildcard pattern under the given case map
/// (256 entries, one per byte value). The string never holds a byte that
/// the map sends to the image of NUL, as with NUL-terminated strings.
pub fn match_internal(string: &[u8], wild: &[u8], map: &[u8]) -> (r: bool)
    requires
        map@.len() == 256,
        forall|i: int| 0 <= i < string@.len() ==> map@[string@[i] as int] != map@[0],
    ensures
        r == glob_match(map@, string@, wild@),
{
    let ghost s = string@;
    let ghost w = wild@;
    let ghost m = map@;
    let slen = string.len();
    let wlen = wild.len();
    let mut s_idx: usize = 0;
    let mut w_idx: usize = 0;
    let mut mp: usize = 0;
    let mut cand: usize = 0;
    let mut mp_set = false;

    while s_idx < slen
        invariant
            s == string@,
            w == wild@,
            m == map@,
            m.len() == 256,
            slen == s.len(),
            wlen == w.len(),
            s_idx <= slen,
            w_idx <= wlen,
            !mp_set ==> glob_match(m, s, w) == glob_from(m, s, s_idx as int, w, w_idx as int),
            cand <= s_idx,
            mp_set ==> {
                &&& mp <= w_idx
                &&& s_idx - cand == w_idx - mp
                &&& literal_run(m, s, cand as int, w, mp as int, w_idx - mp)
                &&& glob_match(m, s, w) == match_some_suffix(m, s, w, mp as int, cand as int)
            },
        decreases slen + 1 - cand - (if mp_set { 1int } else { 0int }), wlen + slen - w_idx - s_idx,
    {
        if w_idx < wlen && wild[w_idx] == 42u8 {
            proof {
                if mp_set {
                    lemma_commit_star(m, s, w, mp as int, cand as int, w_idx - mp);
                } else {
                    lemma_star(m, s, s_idx as int, w, w_idx as int);
                }
            }
            w_idx = w_idx + 1;
            if w_idx >= wlen {
                proof {
                    assert(glob_from(m, s, s.len() as int, w, w.len() as int));
                }
                return true;
            }
            mp = w_idx;
            cand = s_idx;
            mp_set = true;
        } else if w_idx < wlen && (wild[w_idx] == 63u8 || map[wild[w_idx] as usize]
            == map[string[s_idx] as usize]) {
            proof {
                if mp_set {
                    let n = w_idx - mp;
                    assert forall|t: int| 0 <= t < n + 1 implies !is_star(#[trigger] w[mp + t])
                        && char_matches(m, w[mp + t], s[cand as int + t]) by {
                        if t == n {
                            assert(mp + t == w_idx);
                            assert(cand as int + t == s_idx);
                        }
                    }
                }
            }
            w_idx = w_idx + 1;
            s_idx = s_idx + 1;
        } else if mp_set {
            proof {
                let n = w_idx - mp;
                lemma_literal_run(m, s, cand as int, w, mp as int, n);
                assert(!glob_from(m, s, s_idx as int, w, w_idx as int));
                assert(!glob_from(m, s, cand as int, w, mp as int));
                if match_some_suffix(m, s, w, mp as int, cand as int) {
                    let k = choose|k: int| cand as int <= k <= s.len() && #[trigger] glob_from(m, s, k, w, mp as int);
                    assert(k != cand as int);
                    assert(match_some_suffix(m, s, w, mp as int, cand + 1));
                }
                if match_some_suffix(m, s, w, mp as int, cand + 1) {
                    let k = choose|k: int| cand + 1 <= k <= s.len() && #[trigger] glob_from(m, s, k, w, mp as int);
                    assert(match_some_suffix(m, s, w, mp as int, cand as int));
                }
            }
            w_idx = mp;
            s_idx = cand + 1;
            cand = cand + 1;
        } else {
            return false;
        }
    }

    let ghost wi0 = w_idx as int;
    proof {
        assert(s_idx == slen);
        if mp_set {
            let n = w_idx - mp;
            lemma_literal_run(m, s, cand as int, w, mp as int, n);
            lemma_empty_suffix(m, s, w, w_idx as int);
            if match_some_suffix(m, s, w, mp as int, cand as int) {
                let k = choose|k: int| cand as int <= k <= s.len() && #[trigger] glob_from(m, s, k, w, mp as int);
                if k > cand as int {
                    assert forall|t: int| 0 <= t < n implies !is_star(#[trigger] w[mp + t]) by {}
                    lemma_consume_literal(m, s, k, w, mp as int, n);
                }
            }
            if glob_from(m, s, cand as int, w, mp as int) {
                assert(match_some_suffix(m, s, w, mp as int, cand as int));
            }
        } else {
            lemma_empty_suffix(m, s, w, w_idx as int);
        }
    }

    while w_idx < wlen && wild[w_idx] == 42u8
        invariant
            w == wild@,
            wlen == w.len(),
            wi0 <= w_idx <= wlen,
            glob_match(m, s, w) == all_stars_from(w, wi0),
            forall|t: int| wi0 <= t < w_idx ==> is_star(#[trigger] w[t]),
        decreases wlen - w_idx,
    {
        w_idx = w_idx + 1;
    }
    proof {
        if w_idx < wlen {
            assert(!all_stars_from(w, wi0));
        }
    }
    w_idx >= wlen
}

/// A mask matches an address in CIDR style (with a `user@` part) or as a
/// wildcard pattern.
pub open spec fn spec_match_cidr_style(map: Seq<u8>, s: Seq<u8>, mask: Seq<u8>) -> bool {
    spec_match_cidr(s, mask, true) || glob_match(map, s, mask)
}

/// Matches an address against a mask in CIDR style or as a wildcard pattern.
pub fn match_cidr_style(s: &[u8], mask: &[u8], map: &[u8]) -> (r: bool)
    requires
        map@.len() == 256,
        forall|i: int| 0 <= i < s@.len() ==> map@[#[trigger] s@[i] as int] != map@[0],
    ensures
        r == spec_match_cidr_style(map@, s@, mask@),
{
    proof {
        assert forall|i: int| 0 <= i < s@.len() implies #[trigger] s@[i] != 0 by {
            assert(map@[s@[i] as int] != map@[0]);
        }
    }
    match_cidr_bytes(s, mask, true) || match_internal(s, mask, map)
}

/// The space-separated tokens of `s[p..]`, where `start` is the beginning
/// of a token that is still open at `p`.
pub open spec fn space_tokens_from(s: Seq<u8>, p: int, start: Option<int>) -> Seq<Seq<u8>>
    decreases s.len() - p,
{
    if p >= s.len() {
        match start {
            Some(st) => seq![s.subrange(st, s.len() as int)],
            None => Seq::empty(),
        }
    } else if s[p] == 32u8 {
        match start {
            Some(st) => seq![s.subrange(st, p)] + space_tokens_from(s, p + 1, None),
            None => space_tokens_from(s, p + 1, None),
        }
    } else {
        match start {
            Some(st) => space_tokens_from(s, p + 1, Some(st)),
            None => space_tokens_from(s, p + 1, Some(p)),
        }
    }
}

/// The maximal runs of non-space bytes of `s`, in order.
pub open spec fn space_tokens(s: Seq<u8>) -> Seq<Seq<u8>> {
    space_tokens_from(s, 0, None)
}

/// The views of a list of byte vectors.
pub open spec fn byte_views(v: Seq<Vec<u8>>) -> Seq<Seq<u8>> {
    v.map_values(|x: Vec<u8>| x@)
}

fn copy_range(s: &[u8], from: usize, to: usize) -> (r: Vec<u8>)
    requires
        from <= to <= s@.len(),
    ensures
        r@ == s@.subrange(from as int, to as int),
{
    vstd::slice::slice_to_vec(vstd::slice::slice_subrange(s, from, to))
}

/// Splits a list of masks at spaces, dropping empty tokens.
pub fn sepstream_space_tokens(tokens: &[u8]) -> (r: Vec<Vec<u8>>)
    ensures
        byte_views(r@) == space_tokens(tokens@),
{
    let n = tokens.len();
    let mut out: Vec<Vec<u8>> = Vec::new();
    let mut start: Option<usize> = None;
    let mut i: usize = 0;
    while i < n
        invariant
            n == tokens@.len(),
            i <= n,
            start matches Some(st) ==> st < i,
            byte_views(out@) + space_tokens_from(tokens@, i as int, match start {
                Some(st) => Some(st as int),
                None => None,
            }) == space_tokens(tokens@),
        decreases n - i,
    {
        let ghost before = out@;
        if tokens[i] == 32u8 {
            match start {
                Some(st) => {
                    let tok = copy_range(tokens, st, i);
                    out.push(tok);
                    proof {
                        assert(byte_views(out@) =~= byte_views(before).push(tok@));
                        assert(byte_views(before).push(tok@) + space_tokens_from(tokens@, i + 1, None)
                            =~= byte_views(before) + (seq![tok@] + space_tokens_from(tokens@, i + 1, None)));
                    }
                },
                None => {},
            }
            start = None;
        } else {
            if start.is_none() {
                start = Some(i);
            }
        }
        i = i + 1;
    }
    match start {
        Some(st) => {
            let ghost before = out@;
            let tok = copy_range(tokens, st, n);
            out.push(tok);
            proof {
                assert(byte_views(out@) =~= byte_views(before).push(tok@));
                assert(byte_views(before) + seq![tok@] =~= byte_views(before).push(tok@));
            }
        },
        None => {
            proof {
                assert(byte_views(out@) + Seq::<Seq<u8>>::empty() =~= byte_views(out@));
            }
        },
    }
    out
}

/// Some space-separated mask of `masks` matches the host name as a wildcard
/// pattern, or the address in CIDR style or as a wildcard pattern.
pub open spec fn spec_match_mask(map: Seq<u8>, masks: Seq<u8>, host: Seq<u8>, ip: Seq<u8>) -> bool {
    exists|k: int|
        0 <= k < space_tokens(masks).len() && (glob_match(map, host, #[trigger] space_tokens(masks)[k])
            || spec_match_cidr_style(map, ip, space_tokens(masks)[k]))
}

/// Whether any of the space-separated masks matches the host name or the
/// address. Neither the host name nor the address holds a byte that the
/// map sends to the image of NUL.
pub fn match_mask(masks: &str, hostname: &str, ipaddr: &str, map: &[u8]) -> (r: bool)
    requires
        map@.len() == 256,
        forall|i: int|
            0 <= i < hostname.spec_bytes().len() ==> map@[#[trigger] hostname.spec_bytes()[i] as int]
                != map@[0],
        forall|i: int|
            0 <= i < ipaddr.spec_bytes().len() ==> map@[#[trigger] ipaddr.spec_bytes()[i] as int]
                != map@[0],
    ensures
        r == spec_match_mask(map@, masks.spec_bytes(), hostname.spec_bytes(), ipaddr.spec_bytes()),
{
    let toks = sepstream_space_tokens(masks.as_bytes());
    let host = hostname.as_bytes();
    let ip = ipaddr.as_bytes();
    let ghost ts = space_tokens(masks.spec_bytes());
    let mut k: usize = 0;
    while k < toks.len()
        invariant
            byte_views(toks@) == ts,
            ts == space_tokens(masks.spec_bytes()),
            host@ == hostname.spec_bytes(),
            ip@ == ipaddr.spec_bytes(),
            map@.len() == 256,
            forall|i: int| 0 <= i < host@.len() ==> map@[#[trigger] host@[i] as int] != map@[0],
            forall|i: int| 0 <= i < ip@.len() ==> map@[#[trigger] ip@[i] as int] != map@[0],
            k <= toks@.len(),
            forall|j: int|
                0 <= j < k ==> !(glob_match(map@, host@, #[trigger] ts[j]) || spec_match_cidr_style(
                    map@,
                    ip@,
                    ts[j],
                )),
        decreases toks.len() - k,
    {
        let tok = &toks[k];
        assert(tok@ == ts[k as int]);
        if match_internal(host, tok.as_slice(), map) || match_cidr_style(ip, tok.as_slice(), map) {
            return true;
        }
        k = k + 1;
    }
    false
}

proof fn lemma_star_from(map: Seq<u8>, s: Seq<u8>, i: int, w: Seq<u8>)
    requires
        w == seq![42u8],
        0 <= i <= s.len(),
    ensures
        glob_from(map, s, i, w, 0),
    decreases s.len() - i,
{
    assert(glob_from(map, s, s.len() as int, w, 1));
    if i < s.len() {
        lemma_star_from(map, s, i + 1, w);
    }
}

/// The pattern `*` matches every string.
pub proof fn law_star_matches_all(map: Seq<u8>, s: Seq<u8>)
    ensures
        glob_match(map, s, seq![42u8]),
{
    lemma_star_from(map, s, 0, seq![42u8]);
}

proof fn lemma_literal_from(map: Seq<u8>, s: Seq<u8>, i: int)
    requires
        0 <= i <= s.len(),
        forall|k: int| 0 <= k < s.len() ==> !is_star(#[trigger] s[k]),
    ensures
        glob_from(map, s, i, s, i),
    decreases s.len() - i,
{
    if i < s.len() {
        lemma_literal_from(map, s, i + 1);
        assert(!is_star(s[i]));
    }
}

/// A pattern without `*` matches itself.
pub proof fn law_pattern_matches_itself(map: Seq<u8>, s: Seq<u8>)
    requires
        forall|k: int| 0 <= k < s.len() ==> !is_star(#[trigger] s[k]),
    ensures
        glob_match(map, s, s),
{
    lemma_literal_from(map, s, 0);
}

/// A list of masks matches a client when one of its masks matches the
/// client's host name or its IP address as a wildcard pattern, or the IP
/// address as a CIDR mask; and only then.
pub proof fn law_mask_list_matches_by_any_mask(map: Seq<u8>, masks: Seq<u8>, host: Seq<u8>, ip: Seq<u8>, k: int)
    requires
        0 <= k < space_tokens(masks).len(),
    ensures
        glob_match(map, host, space_tokens(masks)[k]) ==> spec_match_mask(map, masks, host, ip),
        glob_match(map, ip, space_tokens(masks)[k]) ==> spec_match_mask(map, masks, host, ip),
        spec_match_cidr(ip, space_tokens(masks)[k], true) ==> spec_match_mask(map, masks, host, ip),
        spec_match_mask(map, masks, host, ip) ==> exists|j: int|
            0 <= j < space_tokens(masks).len() && (glob_match(map, host, #[trigger] space_tokens(masks)[j])
                || glob_match(map, ip, space_tokens(masks)[j]) || spec_match_cidr(ip, space_tokens(masks)[j], true)),
{
}

} // verus!
