//! IRC case mapping: case-insensitive comparison, search, ordering and
//! hashing of byte strings under the ASCII case-insensitive map.

use vstd::prelude::*;
use vstd::string::StringSliceAdditionalSpecFns;
use crate::text::{str_chars, string_from_chars};

verus! {

/// The ASCII case-insensitive map: `A`-`Z` fold to `a`-`z`, every other
/// byte maps to itself.
pub open spec fn fold(b: u8) -> u8 {
    if 65 <= b && b <= 90 {
        (b + 32) as u8
    } else {
        b
    }
}

/// The ASCII case-insensitive map as a table of its 256 entries.
pub fn ascii_case_insensitive_map() -> (r: Vec<u8>)
    ensures
        r@.len() == 256,
        forall|i: int| 0 <= i < 256 ==> #[trigger] r@[i] == fold(i as u8),
{
    let mut m: Vec<u8> = Vec::new();
    let mut i: u32 = 0;
    while i < 256
        invariant
            i <= 256,
            m@.len() == i,
            forall|k: int| 0 <= k < i ==> #[trigger] m@[k] == fold(k as u8),
        decreases 256 - i,
    {
        let b = i as u8;
        m.push(if 65 <= b && b <= 90 { b + 32 } else { b });
        i = i + 1;
    }
    m
}

/// Applies the ASCII case-insensitive map to one byte.
pub fn ascii_fold(b: u8) -> (r: u8)
    ensures
        r == fold(b),
{
    if b >= 65 && b <= 90 {
        b + 32
    } else {
        b
    }
}

/// Two byte strings are equal under the case map.
pub open spec fn ci_eq(a: Seq<u8>, b: Seq<u8>) -> bool {
    &&& a.len() == b.len()
    &&& forall|i: int| 0 <= i < a.len() ==> #[trigger] fold(a[i]) == fold(b[i])
}

/// Case-insensitive string comparison using the ASCII case-insensitive map.
pub fn equals(s1: &str, s2: &str) -> (r: bool)
    ensures
        r == ci_eq(s1.spec_bytes(), s2.spec_bytes()),
{
    let a = s1.as_bytes();
    let b = s2.as_bytes();
    if a.len() != b.len() {
        return false;
    }
    let mut i: usize = 0;
    while i < a.len()
        invariant
            a@ == s1.spec_bytes(),
            b@ == s2.spec_bytes(),
            a.len() == b.len(),
            i <= a.len(),
            forall|j: int| 0 <= j < i ==> #[trigger] fold(a@[j]) == fold(b@[j]),
        decreases a.len() - i,
    {
        if ascii_fold(a[i]) != ascii_fold(b[i]) {
            return false;
        }
        i = i + 1;
    }
    true
}

/// The needle occurs case-insensitively in the haystack at byte `p`.
pub open spec fn ci_matches_at(h: Seq<u8>, n: Seq<u8>, p: int) -> bool {
    &&& 0 <= p
    &&& p + n.len() <= h.len()
    &&& forall|i: int| 0 <= i < n.len() ==> #[trigger] fold(n[i]) == fold(h[p + i])
}

/// Case-insensitive substring search: the first byte position at which the
/// needle occurs, if any.
pub fn find(haystack: &str, needle: &str) -> (r: Option<usize>)
    ensures
        match r {
            Some(p) => ci_matches_at(haystack.spec_bytes(), needle.spec_bytes(), p as int)
                && forall|q: int| 0 <= q < p ==> !ci_matches_at(haystack.spec_bytes(), needle.spec_bytes(), q),
            None => forall|q: int| !ci_matches_at(haystack.spec_bytes(), needle.spec_bytes(), q),
        },
{
    let h = haystack.as_bytes();
    let n = needle.as_bytes();
    if n.len() > h.len() {
        return None;
    }
    let last = h.len() - n.len();
    let mut hpos: usize = 0;
    while hpos <= last
        invariant
            h@ == haystack.spec_bytes(),
            n@ == needle.spec_bytes(),
            last == h.len() - n.len(),
            n.len() <= h.len(),
            hpos <= last + 1,
            forall|q: int| 0 <= q < hpos ==> !ci_matches_at(h@, n@, q),
        decreases last + 1 - hpos,
    {
        let mut npos: usize = 0;
        while npos < n.len() && ascii_fold(n[npos]) == ascii_fold(h[hpos + npos])
            invariant
                h@ == haystack.spec_bytes(),
                n@ == needle.spec_bytes(),
                hpos <= last,
                last == h.len() - n.len(),
                npos <= n.len(),
                forall|i: int| 0 <= i < npos ==> #[trigger] fold(n@[i]) == fold(h@[hpos + i]),
            decreases n.len() - npos,
        {
            npos = npos + 1;
        }
        if npos == n.len() {
            return Some(hpos);
        }
        proof {
            assert(fold(n@[npos as int]) != fold(h@[hpos + npos]));
        }
        hpos = hpos + 1;
    }
    proof {
        assert forall|q: int| !ci_matches_at(h@, n@, q) by {
            if q >= hpos {
                assert(q + n@.len() > h@.len());
            }
        }
    }
    None
}

/// Lexicographic order of the folded bytes, from byte `i` on; a string
/// that is a proper prefix of the other is less.
pub open spec fn ci_less_from(a: Seq<u8>, b: Seq<u8>, i: int) -> bool
    decreases a.len() - i,
{
    if i < 0 || i >= a.len() || i >= b.len() {
        a.len() < b.len()
    } else if fold(a[i]) < fold(b[i]) {
        true
    } else if fold(a[i]) > fold(b[i]) {
        false
    } else {
        ci_less_from(a, b, i + 1)
    }
}

/// `a` sorts strictly before `b` under the case map.
pub open spec fn ci_less(a: Seq<u8>, b: Seq<u8>) -> bool {
    ci_less_from(a, b, 0)
}

/// Case-insensitive strict weak ordering for sorting.
pub fn insensitive_swo_compare(a: &str, b: &str) -> (r: bool)
    ensures
        r == ci_less(a.spec_bytes(), b.spec_bytes()),
{
    let x = a.as_bytes();
    let y = b.as_bytes();
    let maxsize = if x.len() < y.len() { x.len() } else { y.len() };
    let mut i: usize = 0;
    while i < maxsize
        invariant
            x@ == a.spec_bytes(),
            y@ == b.spec_bytes(),
            maxsize <= x.len(),
            maxsize <= y.len(),
            maxsize == x.len() || maxsize == y.len(),
            i <= maxsize,
            ci_less(x@, y@) == ci_less_from(x@, y@, i as int),
        decreases maxsize - i,
    {
        let ac = ascii_fold(x[i]);
        let bc = ascii_fold(y[i]);
        if ac > bc {
            return false;
        } else if ac < bc {
            return true;
        }
        i = i + 1;
    }
    x.len() < y.len()
}

/// The case-insensitive hash of the first `n` bytes: `t = 5 * t + fold(c)`
/// over the bytes, modulo the width of `usize`.
pub open spec fn ci_hash_prefix(s: Seq<u8>, n: int) -> int
    decreases n,
{
    if n <= 0 {
        0
    } else {
        (5 * ci_hash_prefix(s, n - 1) + fold(s[n - 1])) % (usize::MAX as int + 1)
    }
}

/// The case-insensitive hash of a byte string.
pub open spec fn ci_hash(s: Seq<u8>) -> int {
    ci_hash_prefix(s, s.len() as int)
}

proof fn lemma_hash_range(s: Seq<u8>, n: int)
    ensures
        0 <= ci_hash_prefix(s, n) <= usize::MAX,
    decreases n,
{
    if n > 0 {
        lemma_hash_range(s, n - 1);
    }
}

/// Hash function for case-insensitive strings.
pub fn insensitive_hash(s: &str) -> (r: usize)
    ensures
        r as int == ci_hash(s.spec_bytes()),
{
    let b = s.as_bytes();
    let mut t: usize = 0;
    let mut i: usize = 0;
    while i < b.len()
        invariant
            b@ == s.spec_bytes(),
            i <= b.len(),
            t as int == ci_hash_prefix(b@, i as int),
        decreases b.len() - i,
    {
        let f = ascii_fold(b[i]);
        let t5 = t.wrapping_mul(5);
        let t2 = t5.wrapping_add(f as usize);
        proof {
            let m = usize::MAX as int + 1;
            assert(t5 as int == (t as int * 5) % m);
            vstd::arithmetic::div_mod::lemma_add_mod_noop(t as int * 5, f as int, m);
            vstd::arithmetic::div_mod::lemma_small_mod(f as nat, m as nat);
            vstd::arithmetic::div_mod::lemma_mod_bound(t as int * 5, m);
            assert(t2 as int == (t5 as int + f as int) % m) by {
                if t5 as int + f as int > usize::MAX as int {
                    vstd::arithmetic::div_mod::lemma_fundamental_div_mod_converse(t5 as int + f as int, m, 1, t5 as int + f as int - m);
                } else {
                    vstd::arithmetic::div_mod::lemma_small_mod((t5 as int + f as int) as nat, m as nat);
                }
            }
            assert(((t as int * 5) % m + f as int % m) % m == (t as int * 5 + f as int) % m);
            assert(t2 as int == ci_hash_prefix(b@, i as int + 1));
        }
        t = t2;
        i = i + 1;
    }
    t
}

proof fn lemma_less_irreflexive_from(a: Seq<u8>, i: int)
    requires
        0 <= i,
    ensures
        !ci_less_from(a, a, i),
    decreases a.len() - i,
{
    if i < a.len() {
        lemma_less_irreflexive_from(a, i + 1);
    }
}

proof fn lemma_less_transitive_from(a: Seq<u8>, b: Seq<u8>, c: Seq<u8>, i: int)
    requires
        0 <= i,
        ci_less_from(a, b, i),
        ci_less_from(b, c, i),
    ensures
        ci_less_from(a, c, i),
    decreases a.len() - i,
{
    if i < a.len() && i < b.len() && i < c.len() && fold(a[i]) == fold(b[i]) && fold(b[i]) == fold(c[i]) {
        lemma_less_transitive_from(a, b, c, i + 1);
    }
}

proof fn lemma_less_total_from(a: Seq<u8>, b: Seq<u8>, i: int)
    requires
        0 <= i <= a.len(),
        i <= b.len(),
        forall|k: int| 0 <= k < i ==> #[trigger] fold(a[k]) == fold(b[k]),
    ensures
        (!ci_less_from(a, b, i) && !ci_less_from(b, a, i)) == ci_eq(a, b),
    decreases a.len() - i,
{
    if i < a.len() && i < b.len() {
        if fold(a[i]) == fold(b[i]) {
            lemma_less_total_from(a, b, i + 1);
        } else {
            assert(!ci_eq(a, b));
        }
    } else if a.len() != b.len() {
        assert(!ci_eq(a, b));
    }
}

proof fn lemma_hash_prefix_equal(a: Seq<u8>, b: Seq<u8>, n: int)
    requires
        ci_eq(a, b),
        n <= a.len(),
    ensures
        ci_hash_prefix(a, n) == ci_hash_prefix(b, n),
    decreases n,
{
    if n > 0 {
        lemma_hash_prefix_equal(a, b, n - 1);
        assert(fold(a[n - 1]) == fold(b[n - 1]));
    }
}

/// Case-insensitive equality is an equivalence relation.
pub proof fn law_equals_is_equivalence(a: Seq<u8>, b: Seq<u8>, c: Seq<u8>)
    ensures
        ci_eq(a, a),
        ci_eq(a, b) ==> ci_eq(b, a),
        ci_eq(a, b) && ci_eq(b, c) ==> ci_eq(a, c),
{
}

/// Strings that are equal under the case map hash to the same value.
pub proof fn law_hash_respects_equals(a: Seq<u8>, b: Seq<u8>)
    requires
        ci_eq(a, b),
    ensures
        ci_hash(a) == ci_hash(b),
{
    lemma_hash_prefix_equal(a, b, a.len() as int);
}

/// The case-insensitive comparison is a strict weak ordering: irreflexive,
/// transitive, and two strings are unordered exactly when they are equal
/// under the case map.
pub proof fn law_swo_is_strict_weak_order(a: Seq<u8>, b: Seq<u8>, c: Seq<u8>)
    ensures
        !ci_less(a, a),
        ci_less(a, b) && ci_less(b, c) ==> ci_less(a, c),
        (!ci_less(a, b) && !ci_less(b, a)) == ci_eq(a, b),
{
    lemma_less_irreflexive_from(a, 0);
    if ci_less(a, b) && ci_less(b, c) {
        lemma_less_transitive_from(a, b, c, 0);
    }
    lemma_less_total_from(a, b, 0);
}

/// The first position at or after `p` that does not hold the separator.
pub open spec fn skip_separators(t: Seq<char>, sep: char, p: int) -> int
    decreases t.len() - p,
{
    if 0 <= p < t.len() && t[p] == sep {
        skip_separators(t, sep, p + 1)
    } else {
        p
    }
}

/// The first position at or after `p` that holds the separator, or the
/// length of the text when there is none.
pub open spec fn find_separator(t: Seq<char>, sep: char, p: int) -> int
    decreases t.len() - p,
{
    if p < 0 || p >= t.len() {
        t.len() as int
    } else if t[p] == sep {
        p
    } else {
        find_separator(t, sep, p + 1)
    }
}

/// The abstract state of a token stream: the text, the separator, whether
/// empty tokens are returned, and the current position (past the end once
/// the stream is exhausted).
pub struct SepStreamState {
    pub tokens: Seq<char>,
    pub sep: char,
    pub allow_empty: bool,
    pub pos: int,
}

/// The token that a stream in state `st` yields next, and the position
/// after it.
pub open spec fn next_token(st: SepStreamState) -> (Option<Seq<char>>, int) {
    let t = st.tokens;
    if st.pos > t.len() {
        (None, st.pos)
    } else {
        let start = if st.allow_empty { st.pos } else { skip_separators(t, st.sep, st.pos) };
        if !st.allow_empty && start >= t.len() {
            (None, t.len() + 1int)
        } else {
            let end = find_separator(t, st.sep, start);
            (Some(t.subrange(start, end)), end + 1)
        }
    }
}

/// Separator-based token stream.
pub struct RustSepStream {
    tokens: Vec<char>,
    sep: char,
    allow_empty: bool,
    pos: usize,
}

impl View for RustSepStream {
    type V = SepStreamState;

    closed spec fn view(&self) -> SepStreamState {
        SepStreamState {
            tokens: self.tokens@,
            sep: self.sep,
            allow_empty: self.allow_empty,
            pos: self.pos as int,
        }
    }
}

proof fn lemma_skip_bounds(t: Seq<char>, sep: char, p: int)
    requires
        0 <= p <= t.len(),
    ensures
        p <= skip_separators(t, sep, p) <= t.len(),
    decreases t.len() - p,
{
    if p < t.len() && t[p] == sep {
        lemma_skip_bounds(t, sep, p + 1);
    }
}

proof fn lemma_find_bounds(t: Seq<char>, sep: char, p: int)
    requires
        0 <= p,
    ensures
        p <= t.len() ==> p <= find_separator(t, sep, p) <= t.len(),
    decreases t.len() - p,
{
    if p < t.len() && t[p] != sep {
        lemma_find_bounds(t, sep, p + 1);
    }
}

impl RustSepStream {
    #[verifier::type_invariant]
    spec fn well_formed(self) -> bool {
        &&& self.tokens@.len() < usize::MAX
        &&& self.pos <= self.tokens@.len() + 1
    }

    /// The separator as a char: its low byte, as a Latin-1 char.
    pub open spec fn separator_char(separator: char) -> char {
        ((separator as u32) % 256) as char
    }

    /// Creates a stream over `source` split on `separator` (of which only
    /// the low byte counts).
    pub fn new(source: &str, separator: char, allowempty: bool) -> (r: Self)
        requires
            !source@.contains('\0'),
            source@.len() < usize::MAX,
        ensures
            r@.tokens == source@,
            r@.sep == Self::separator_char(separator),
            r@.allow_empty == allowempty,
            r@.pos == 0,
    {
        let low: u32 = (separator as u32) % 256;
        let sep = char_from_low_byte(low);
        RustSepStream { tokens: str_chars(source), sep, allow_empty: allowempty, pos: 0 }
    }

    /// Whether every token has been read.
    pub fn stream_end(&self) -> (r: bool)
        ensures
            r == (self@.pos > self@.tokens.len()),
    {
        self.pos > self.tokens.len()
    }

    /// Reads the next token; with empty tokens disallowed, runs of
    /// separators are skipped.
    pub fn get_token(&mut self) -> (r: Option<String>)
        ensures
            final(self)@.tokens == old(self)@.tokens,
            final(self)@.sep == old(self)@.sep,
            final(self)@.allow_empty == old(self)@.allow_empty,
            final(self)@.pos <= final(self)@.tokens.len() + 1,
            final(self)@.pos == next_token(old(self)@).1,
            match r {
                Some(s) => next_token(old(self)@).0 == Some(s@),
                None => next_token(old(self)@).0 is None,
            },
    {
        proof {
            use_type_invariant(&*self);
        }
        let len = self.tokens.len();
        if self.pos > len {
            return None;
        }
        let mut start = self.pos;
        if !self.allow_empty {
            while start < len && self.tokens[start] == self.sep
                invariant
                    self.pos <= start <= len,
                    len == self.tokens@.len(),
                    skip_separators(self.tokens@, self.sep, self.pos as int)
                        == skip_separators(self.tokens@, self.sep, start as int),
                decreases len - start,
            {
                start = start + 1;
            }
            if start >= len {
                self.pos = len + 1;
                return None;
            }
        }
        let mut end = start;
        while end < len && self.tokens[end] != self.sep
            invariant
                start <= end <= len,
                len == self.tokens@.len(),
                find_separator(self.tokens@, self.sep, start as int)
                    == find_separator(self.tokens@, self.sep, end as int),
            decreases len - end,
        {
            end = end + 1;
        }
        let token = string_from_chars(self.tokens.as_slice(), start, end);
        self.pos = end + 1;
        Some(token)
    }

    /// The text not yet read, or nothing once the stream is exhausted.
    pub fn get_remaining(&self) -> (r: String)
        ensures
            r@ == (if self@.pos > self@.tokens.len() {
                Seq::<char>::empty()
            } else {
                self@.tokens.subrange(self@.pos, self@.tokens.len() as int)
            }),
    {
        if self.pos > self.tokens.len() {
            return String::new();
        }
        string_from_chars(self.tokens.as_slice(), self.pos, self.tokens.len())
    }
}

/// The char whose code is `low` (below 256).
fn char_from_low_byte(low: u32) -> (c: char)
    requires
        low < 256,
    ensures
        c == low as char,
{
    let b: u8 = low as u8;
    b as char
}

} // verus!
