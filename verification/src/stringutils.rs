//! Byte string utilities: percent, hex and Base64 encodings, template
//! variables, timing-safe comparison, and lists of tokens.

use vstd::prelude::*;
use vstd::string::StringSliceAdditionalSpecFns;
use crate::text::{is_blank, push_char, push_str, str_chars, str_equals, string_from_chars, to_lowercase, trim_chars, trim_end_chars, trim_start_chars, unicode_lowercase};

verus! {

/// An owned byte string, as handed across the C++ boundary.
pub struct StdString {
    data: Vec<u8>,
}

impl StdString {
    /// The bytes of the string.
    pub closed spec fn view(&self) -> Seq<u8> {
        self.data@
    }

    /// A string holding the given bytes.
    pub fn from_vec(vec: Vec<u8>) -> (r: Self)
        ensures
            r.view() == vec@,
    {
        StdString { data: vec }
    }

    /// Whether the string is empty.
    pub fn is_empty(&self) -> (r: bool)
        ensures
            r == (self.view().len() == 0),
    {
        self.data.len() == 0
    }

    /// The bytes of the string.
    pub fn as_bytes(&self) -> (r: &[u8])
        ensures
            r@ == self.view(),
    {
        self.data.as_slice()
    }
}

/// Whether the bytes of the string are those of `t`.
pub fn std_string_bytes_eq(s: &StdString, t: &str) -> (r: bool)
    ensures
        r == (s.view() == t.spec_bytes()),
{
    let a = s.as_bytes();
    let b = t.as_bytes();
    if a.len() != b.len() {
        return false;
    }
    let mut i: usize = 0;
    while i < a.len()
        invariant
            a@ == s.view(),
            b@ == t.spec_bytes(),
            a@.len() == b@.len(),
            i <= a@.len(),
            forall|k: int| 0 <= k < i ==> a@[k] == b@[k],
        decreases a.len() - i,
    {
        if a[i] != b[i] {
            return false;
        }
        i = i + 1;
    }
    proof {
        assert(a@ =~= b@);
    }
    true
}

/// A copy of the bytes of the string.
pub fn clone_std_string_bytes(s: &StdString) -> (r: Vec<u8>)
    ensures
        r@ == s.view(),
{
    let a = s.as_bytes();
    let mut v: Vec<u8> = Vec::new();
    let mut i: usize = 0;
    while i < a.len()
        invariant
            a@ == s.view(),
            i <= a@.len(),
            v@ == a@.take(i as int),
        decreases a.len() - i,
    {
        v.push(a[i]);
        proof {
            assert(a@.take(i + 1) =~= a@.take(i as int).push(a@[i as int]));
        }
        i = i + 1;
    }
    proof {
        assert(a@.take(i as int) =~= a@);
    }
    v
}

/// Compares two byte strings in time that depends only on their length.
pub fn timing_safe_compare(one: &[u8], two: &[u8]) -> (r: bool)
    ensures
        r == (one@ == two@),
{
    if one.len() != two.len() {
        return false;
    }
    let mut diff: u8 = 0;
    let mut i: usize = 0;
    while i < one.len()
        invariant
            one@.len() == two@.len(),
            i <= one@.len(),
            (diff == 0) == (forall|j: int| 0 <= j < i ==> one@[j] == two@[j]),
        decreases one.len() - i,
    {
        let a = one[i];
        let b = two[i];
        let d = diff;
        diff = diff | (a ^ b);
        proof {
            assert((d | (a ^ b)) == 0 <==> (d == 0 && a == b)) by (bit_vector);
        }
        i = i + 1;
    }
    proof {
        if diff == 0 {
            assert(one@ =~= two@);
        }
    }
    diff == 0
}


/// The hex digit for `n` (below 16), in upper or lower case.
pub open spec fn hex_digit(n: int, upper: bool) -> u8 {
    if n < 10 {
        ('0' as u8 + n) as u8
    } else if upper {
        ('A' as u8 + n - 10) as u8
    } else {
        ('a' as u8 + n - 10) as u8
    }
}

/// How percent encoding writes one byte: as itself where the table of
/// safe bytes holds it, else as `%` and its two hex digits.
pub open spec fn percent_byte(b: u8, table: Seq<u8>, upper: bool) -> Seq<u8> {
    if table.contains(b) {
        seq![b]
    } else {
        seq!['%' as u8, hex_digit((b / 16) as int, upper), hex_digit((b % 16) as int, upper)]
    }
}

/// The percent encoding of `d`, byte by byte.
pub open spec fn spec_percent_encode(d: Seq<u8>, table: Seq<u8>, upper: bool) -> Seq<u8>
    decreases d.len(),
{
    if d.len() == 0 {
        Seq::empty()
    } else {
        spec_percent_encode(d.drop_last(), table, upper) + percent_byte(d.last(), table, upper)
    }
}

/// The ASCII uppercase form of a byte.
pub open spec fn ascii_upper(b: u8) -> u8 {
    if 'a' as u8 <= b <= 'z' as u8 {
        (b - 32) as u8
    } else {
        b
    }
}

/// The value of an uppercase hex digit; 0 for any other byte.
pub open spec fn upper_hex_value(b: u8) -> int {
    if '0' as u8 <= b <= '9' as u8 {
        b - '0' as u8
    } else if 'A' as u8 <= b <= 'F' as u8 {
        b - 'A' as u8 + 10
    } else {
        0
    }
}

/// The byte at `i`, or 0 past the end.
pub open spec fn byte_or_zero(s: Seq<u8>, i: int) -> u8 {
    if 0 <= i < s.len() {
        s[i]
    } else {
        0
    }
}

/// The bytes of `s` from `i` on; empty past the end.
pub open spec fn rest_from(s: Seq<u8>, i: int) -> Seq<u8> {
    if 0 <= i <= s.len() {
        s.skip(i)
    } else {
        Seq::empty()
    }
}

/// The percent decoding of `s`: a `%` and the two bytes after it (which
/// count as 0 where missing) give the byte whose hex digits they are, in
/// either case, a byte that is no hex digit counting as 0; other bytes
/// stand for themselves.
pub open spec fn spec_percent_decode(s: Seq<u8>) -> Seq<u8>
    decreases s.len(),
{
    if s.len() == 0 {
        Seq::empty()
    } else if s[0] == '%' as u8 {
        let hi = upper_hex_value(ascii_upper(byte_or_zero(s, 1)));
        let lo = upper_hex_value(ascii_upper(byte_or_zero(s, 2)));
        seq![(hi * 16 + lo) as u8] + spec_percent_decode(rest_from(s, 3))
    } else {
        seq![s[0]] + spec_percent_decode(s.skip(1))
    }
}

fn byte_in(table: &[u8], b: u8) -> (r: bool)
    ensures
        r == table@.contains(b),
{
    let mut i: usize = 0;
    while i < table.len()
        invariant
            i <= table@.len(),
            forall|j: int| 0 <= j < i ==> table@[j] != b,
        decreases table.len() - i,
    {
        if table[i] == b {
            assert(table@[i as int] == b);
            return true;
        }
        i = i + 1;
    }
    false
}

fn hex_digit_of(n: u8, upper: bool) -> (r: u8)
    requires
        n < 16,
    ensures
        r == hex_digit(n as int, upper),
{
    if n < 10 {
        '0' as u8 + n
    } else if upper {
        'A' as u8 + n - 10
    } else {
        'a' as u8 + n - 10
    }
}

/// Percent-encodes bytes: bytes that the table holds are kept, others are
/// written as `%` and two hex digits.
pub fn percent_encode(data: &[u8], table: &[u8], upper: bool) -> (r: Vec<u8>)
    ensures
        r@ == spec_percent_encode(data@, table@, upper),
{
    let mut buffer: Vec<u8> = Vec::new();
    let mut i: usize = 0;
    while i < data.len()
        invariant
            i <= data@.len(),
            buffer@ == spec_percent_encode(data@.take(i as int), table@, upper),
        decreases data.len() - i,
    {
        let chr = data[i];
        proof {
            assert(data@.take(i + 1).drop_last() =~= data@.take(i as int));
        }
        if byte_in(table, chr) {
            buffer.push(chr);
        } else {
            let hi = chr >> 4u8;
            let lo = chr & 15u8;
            proof {
                assert(hi == chr / 16 && lo == chr % 16) by (bit_vector)
                    requires
                        hi == chr >> 4u8,
                        lo == chr & 15u8,
                ;
            }
            buffer.push('%' as u8);
            buffer.push(hex_digit_of(hi, upper));
            buffer.push(hex_digit_of(lo, upper));
        }
        proof {
            assert(buffer@ =~= spec_percent_encode(data@.take(i + 1), table@, upper));
        }
        i = i + 1;
    }
    proof {
        assert(data@.take(data@.len() as int) =~= data@);
    }
    buffer
}

fn upper_hex_value_of(b: u8) -> (r: u8)
    ensures
        r == upper_hex_value(b),
        r < 16,
{
    if '0' as u8 <= b && b <= '9' as u8 {
        b - '0' as u8
    } else if 'A' as u8 <= b && b <= 'F' as u8 {
        b - 'A' as u8 + 10
    } else {
        0
    }
}

fn ascii_upper_of(b: u8) -> (r: u8)
    ensures
        r == ascii_upper(b),
{
    if 'a' as u8 <= b && b <= 'z' as u8 {
        b - 32
    } else {
        b
    }
}

/// Decodes percent-encoded bytes.
pub fn percent_decode(data: &[u8]) -> (r: Vec<u8>)
    ensures
        r@ == spec_percent_decode(data@),
{
    let mut buffer: Vec<u8> = Vec::new();
    let length = data.len();
    let mut idx: usize = 0;
    proof {
        assert(rest_from(data@, 0) =~= data@);
        assert(buffer@ + data@ =~= data@);
        assert(Seq::<u8>::empty() + spec_percent_decode(data@) =~= spec_percent_decode(data@));
    }
    while idx < length
        invariant
            length == data@.len(),
            idx <= length,
            spec_percent_decode(data@) == buffer@ + spec_percent_decode(rest_from(data@, idx as int)),
        decreases length - idx,
    {
        let ghost s = rest_from(data@, idx as int);
        proof {
            assert(s.len() > 0);
            assert(s[0] == data@[idx as int]);
        }
        if data[idx] == '%' as u8 {
            let start = idx;
            let octet1 = if length - start > 1 {
                ascii_upper_of(data[start + 1])
            } else {
                0
            };
            let octet2 = if length - start > 2 {
                ascii_upper_of(data[start + 2])
            } else {
                0
            };
            let t1 = upper_hex_value_of(octet1);
            let t2 = upper_hex_value_of(octet2);
            proof {
                assert(t1 << 4u8 == t1 * 16) by (bit_vector)
                    requires
                        t1 < 16,
                ;
            }
            let pair = (t1 << 4u8) + t2;
            proof {
                assert(byte_or_zero(s, 1) == if start + 1 < length {
                    data@[start + 1]
                } else {
                    0u8
                });
                assert(byte_or_zero(s, 2) == if start + 2 < length {
                    data@[start + 2]
                } else {
                    0u8
                });
                assert(ascii_upper(0) == 0);
                assert(rest_from(s, 3) =~= rest_from(data@, start + 3));
                assert(buffer@.push(pair) + spec_percent_decode(rest_from(data@, start + 3))
                    =~= buffer@ + (seq![pair] + spec_percent_decode(rest_from(data@, start + 3))));
            }
            buffer.push(pair);
            if length - start > 3 {
                idx = start + 3;
            } else {
                idx = length;
                proof {
                    assert(rest_from(data@, start + 3) =~= Seq::<u8>::empty());
                    assert(rest_from(data@, length as int) =~= Seq::<u8>::empty());
                }
            }
        } else {
            let b = data[idx];
            proof {
                assert(s.skip(1) =~= rest_from(data@, idx + 1));
                assert(buffer@.push(b) + spec_percent_decode(rest_from(data@, idx + 1)) =~= buffer@
                    + (seq![b] + spec_percent_decode(rest_from(data@, idx + 1))));
            }
            buffer.push(b);
            idx = idx + 1;
        }
    }
    proof {
        assert(rest_from(data@, idx as int) =~= Seq::<u8>::empty());
        assert(buffer@ + Seq::<u8>::empty() =~= buffer@);
    }
    buffer
}


proof fn lemma_percent_encode_front(d: Seq<u8>, table: Seq<u8>, upper: bool)
    requires
        d.len() > 0,
    ensures
        spec_percent_encode(d, table, upper) == percent_byte(d[0], table, upper)
            + spec_percent_encode(d.skip(1), table, upper),
    decreases d.len(),
{
    if d.len() == 1 {
        assert(d.drop_last() =~= Seq::<u8>::empty());
        assert(d.skip(1) =~= Seq::<u8>::empty());
        assert(Seq::<u8>::empty() + percent_byte(d[0], table, upper) =~= percent_byte(
            d[0],
            table,
            upper,
        ));
        assert(percent_byte(d[0], table, upper) + Seq::<u8>::empty() =~= percent_byte(
            d[0],
            table,
            upper,
        ));
    } else {
        let init = d.drop_last();
        lemma_percent_encode_front(init, table, upper);
        assert(d.skip(1).drop_last() =~= init.skip(1));
        assert(d.skip(1).last() == d.last());
        assert(init[0] == d[0]);
        let a = percent_byte(d[0], table, upper);
        let b = spec_percent_encode(init.skip(1), table, upper);
        let c = percent_byte(d.last(), table, upper);
        assert(a + b + c =~= a + (b + c));
    }
}

proof fn lemma_hex_digit_value(n: int, upper: bool)
    requires
        0 <= n < 16,
    ensures
        upper_hex_value(ascii_upper(hex_digit(n, upper))) == n,
{
}

proof fn lemma_percent_decode_byte(x: u8, rest: Seq<u8>, table: Seq<u8>, upper: bool)
    requires
        !table.contains('%' as u8),
    ensures
        spec_percent_decode(percent_byte(x, table, upper) + rest) == seq![x] + spec_percent_decode(
            rest,
        ),
{
    let s = percent_byte(x, table, upper) + rest;
    if table.contains(x) {
        assert(x != '%' as u8);
        assert(s[0] == x);
        assert(s.skip(1) =~= rest);
    } else {
        lemma_hex_digit_value((x / 16) as int, upper);
        lemma_hex_digit_value((x % 16) as int, upper);
        assert(s[0] == '%' as u8);
        assert(byte_or_zero(s, 1) == hex_digit((x / 16) as int, upper));
        assert(byte_or_zero(s, 2) == hex_digit((x % 16) as int, upper));
        assert(rest_from(s, 3) =~= rest);
        assert(((x / 16) * 16 + x % 16) as u8 == x);
    }
}

/// Percent decoding undoes percent encoding, for any table of safe bytes
/// that does not hold `%` itself.
pub proof fn law_percent_decode_inverts_encode(d: Seq<u8>, table: Seq<u8>, upper: bool)
    requires
        !table.contains('%' as u8),
    ensures
        spec_percent_decode(spec_percent_encode(d, table, upper)) == d,
    decreases d.len(),
{
    if d.len() == 0 {
        assert(spec_percent_encode(d, table, upper) =~= Seq::<u8>::empty());
        assert(spec_percent_decode(Seq::<u8>::empty()) =~= d);
    } else {
        lemma_percent_encode_front(d, table, upper);
        lemma_percent_decode_byte(d[0], spec_percent_encode(d.skip(1), table, upper), table, upper);
        law_percent_decode_inverts_encode(d.skip(1), table, upper);
        assert(seq![d[0]] + d.skip(1) =~= d);
    }
}


/// The two table entries that stand for the hex digits of a byte.
pub open spec fn hex_pair(b: u8, table: Seq<u8>) -> Seq<u8> {
    seq![table[(b / 16) as int], table[(b % 16) as int]]
}

/// The separator between encoded bytes: the given byte, or nothing for 0.
pub open spec fn hex_separator(separator: u8) -> Seq<u8> {
    if separator != 0 {
        seq![separator]
    } else {
        Seq::empty()
    }
}

/// The encoding of the bytes after the first: each preceded by the
/// separator.
pub open spec fn hex_encode_tail(d: Seq<u8>, table: Seq<u8>, separator: u8) -> Seq<u8>
    decreases d.len(),
{
    if d.len() == 0 {
        Seq::empty()
    } else {
        hex_separator(separator) + hex_pair(d[0], table) + hex_encode_tail(d.skip(1), table, separator)
    }
}

/// The hex encoding of `d` under the table of 16 digits: two digits per
/// byte, separated by the separator unless it is 0.
pub open spec fn spec_hex_encode(d: Seq<u8>, table: Seq<u8>, separator: u8) -> Seq<u8> {
    if d.len() == 0 {
        Seq::empty()
    } else {
        hex_pair(d[0], table) + hex_encode_tail(d.skip(1), table, separator)
    }
}

/// The first position of `b` in the table, or 0 where it is absent.
pub open spec fn table_pos(table: Seq<u8>, b: u8) -> int {
    if exists|i: int| 0 <= i < table.len() && table[i] == b {
        choose|i: int|
            0 <= i < table.len() && table[i] == b && forall|j: int| 0 <= j < i ==> table[j] != b
    } else {
        0
    }
}

/// The hex decoding of `s`: each pair of bytes at the start of a segment
/// (of two bytes, or three with a separator) gives the byte whose digits
/// are their positions in the table; a trailing single byte is ignored.
pub open spec fn spec_hex_decode(s: Seq<u8>, table: Seq<u8>, segment: int) -> Seq<u8>
    decreases s.len(),
{
    if s.len() < 2 || segment < 2 {
        Seq::empty()
    } else {
        seq![(table_pos(table, s[0]) * 16 + table_pos(table, s[1])) as u8] + spec_hex_decode(
            rest_from(s, segment),
            table,
            segment,
        )
    }
}

proof fn lemma_hex_tail_push(d: Seq<u8>, x: u8, table: Seq<u8>, separator: u8)
    ensures
        hex_encode_tail(d.push(x), table, separator) == hex_encode_tail(d, table, separator)
            + hex_separator(separator) + hex_pair(x, table),
    decreases d.len(),
{
    if d.len() == 0 {
        assert(d.push(x).skip(1) =~= Seq::<u8>::empty());
        assert(d.push(x)[0] == x);
        assert(hex_encode_tail(Seq::<u8>::empty(), table, separator) =~= Seq::<u8>::empty());
        assert(hex_encode_tail(d, table, separator) =~= Seq::<u8>::empty());
        assert(hex_encode_tail(d.push(x), table, separator) =~= hex_separator(separator) + hex_pair(
            x,
            table,
        ) + Seq::<u8>::empty());
        assert(hex_encode_tail(d.push(x), table, separator) =~= Seq::<u8>::empty() + hex_separator(
            separator,
        ) + hex_pair(x, table));
    } else {
        assert(d.push(x).skip(1) =~= d.skip(1).push(x));
        lemma_hex_tail_push(d.skip(1), x, table, separator);
        let a = hex_separator(separator) + hex_pair(d[0], table);
        let b = hex_encode_tail(d.skip(1), table, separator);
        let c = hex_separator(separator) + hex_pair(x, table);
        assert(a + (b + c) =~= a + b + c);
    }
}

proof fn lemma_hex_encode_push(d: Seq<u8>, x: u8, table: Seq<u8>, separator: u8)
    ensures
        spec_hex_encode(d.push(x), table, separator) == spec_hex_encode(d, table, separator) + (if d.len()
            > 0 {
            hex_separator(separator)
        } else {
            Seq::empty()
        }) + hex_pair(x, table),
{
    if d.len() == 0 {
        assert(d.push(x).skip(1) =~= Seq::<u8>::empty());
        assert(spec_hex_encode(d.push(x), table, separator) =~= Seq::<u8>::empty() + Seq::<
            u8,
        >::empty() + hex_pair(x, table));
    } else {
        assert(d.push(x).skip(1) =~= d.skip(1).push(x));
        assert(d.push(x)[0] == d[0]);
        lemma_hex_tail_push(d.skip(1), x, table, separator);
        let a = hex_pair(d[0], table);
        let b = hex_encode_tail(d.skip(1), table, separator);
        let c = hex_separator(separator) + hex_pair(x, table);
        assert(a + (b + c) =~= a + b + hex_separator(separator) + hex_pair(x, table));
    }
}

/// Hex-encodes bytes with a table of digits, separating the encoded bytes
/// with the separator unless it is 0.
pub fn hex_encode(data: &[u8], table: &[u8], separator: u8) -> (r: Vec<u8>)
    requires
        table@.len() >= 16,
    ensures
        r@ == spec_hex_encode(data@, table@, separator),
{
    let mut buffer: Vec<u8> = Vec::new();
    let mut i: usize = 0;
    while i < data.len()
        invariant
            i <= data@.len(),
            table@.len() >= 16,
            buffer@ == spec_hex_encode(data@.take(i as int), table@, separator),
        decreases data.len() - i,
    {
        let chr = data[i];
        proof {
            lemma_hex_encode_push(data@.take(i as int), chr, table@, separator);
            assert(data@.take(i + 1) =~= data@.take(i as int).push(chr));
        }
        if i != 0 && separator != 0 {
            buffer.push(separator);
        }
        let hi = chr >> 4u8;
        let lo = chr & 15u8;
        proof {
            assert(hi == chr / 16 && lo == chr % 16) by (bit_vector)
                requires
                    hi == chr >> 4u8,
                    lo == chr & 15u8,
            ;
        }
        buffer.push(table[hi as usize]);
        buffer.push(table[lo as usize]);
        proof {
            assert(buffer@ =~= spec_hex_encode(data@.take(i + 1), table@, separator));
        }
        i = i + 1;
    }
    proof {
        assert(data@.take(data@.len() as int) =~= data@);
    }
    buffer
}

fn position_or_zero(table: &[u8], b: u8) -> (r: u8)
    requires
        table@.len() <= 16,
    ensures
        r == table_pos(table@, b),
        r < 16,
{
    let mut i: usize = 0;
    while i < table.len()
        invariant
            i <= table@.len() <= 16,
            forall|j: int| 0 <= j < i ==> table@[j] != b,
        decreases table.len() - i,
    {
        if table[i] == b {
            proof {
                let k = choose|k: int|
                    0 <= k < table@.len() && table@[k] == b && forall|j: int|
                        0 <= j < k ==> table@[j] != b;
                assert(k == i) by {
                    if k < i {
                        assert(table@[k] != b);
                    }
                    if k > i {
                        assert(table@[i as int] != b);
                    }
                }
            }
            return i as u8;
        }
        i = i + 1;
    }
    0
}

/// Decodes hex-encoded bytes with a table of at most 16 digits; with a
/// nonzero separator the encoded bytes are taken three bytes apart.
pub fn hex_decode(data: &[u8], table: &[u8], separator: u8) -> (r: Vec<u8>)
    requires
        table@.len() <= 16,
    ensures
        r@ == spec_hex_decode(data@, table@, if separator != 0 {
            3
        } else {
            2
        }),
{
    let segment: usize = if separator != 0 {
        3
    } else {
        2
    };
    let length = data.len();
    let mut buffer: Vec<u8> = Vec::new();
    let mut idx: usize = 0;
    proof {
        assert(rest_from(data@, 0) =~= data@);
        assert(Seq::<u8>::empty() + spec_hex_decode(data@, table@, segment as int)
            =~= spec_hex_decode(data@, table@, segment as int));
    }
    while idx < length && length - idx > 1
        invariant
            length == data@.len(),
            idx <= length,
            table@.len() <= 16,
            segment == 2 || segment == 3,
            spec_hex_decode(data@, table@, segment as int) == buffer@ + spec_hex_decode(
                rest_from(data@, idx as int),
                table@,
                segment as int,
            ),
        decreases length - idx,
    {
        let ghost s = rest_from(data@, idx as int);
        let t1 = position_or_zero(table, data[idx]);
        let t2 = position_or_zero(table, data[idx + 1]);
        proof {
            assert(t1 << 4u8 == t1 * 16) by (bit_vector)
                requires
                    t1 < 16,
            ;
            assert(s[0] == data@[idx as int]);
            assert(s[1] == data@[idx + 1]);
        }
        let pair = (t1 << 4u8) + t2;
        proof {
            if length - idx > segment {
                assert(rest_from(s, segment as int) =~= rest_from(data@, idx + segment));
            } else {
                assert(rest_from(s, segment as int) =~= Seq::<u8>::empty());
            }
            assert(buffer@.push(pair) + spec_hex_decode(rest_from(s, segment as int), table@, segment as int)
                =~= buffer@ + (seq![pair] + spec_hex_decode(rest_from(s, segment as int), table@, segment as int)));
        }
        buffer.push(pair);
        if length - idx > segment {
            idx = idx + segment;
        } else {
            idx = length;
            proof {
                assert(rest_from(data@, length as int) =~= Seq::<u8>::empty());
                assert(spec_hex_decode(Seq::<u8>::empty(), table@, segment as int) =~= Seq::<u8>::empty());
            }
        }
    }
    proof {
        let s = rest_from(data@, idx as int);
        assert(s.len() < 2);
        assert(buffer@ + Seq::<u8>::empty() =~= buffer@);
    }
    buffer
}


/// No byte occurs twice in the table.
pub open spec fn distinct_table(table: Seq<u8>) -> bool {
    forall|i: int, j: int| 0 <= i < j < table.len() ==> #[trigger] table[i] != #[trigger] table[j]
}

proof fn lemma_table_pos(table: Seq<u8>, k: int)
    requires
        distinct_table(table),
        0 <= k < table.len(),
    ensures
        table_pos(table, table[k]) == k,
{
    let b = table[k];
    assert(exists|i: int| 0 <= i < table.len() && table[i] == b);
    let c = choose|i: int|
        0 <= i < table.len() && table[i] == b && forall|j: int| 0 <= j < i ==> table[j] != b;
    assert(0 <= k < table.len() && table[k] == b && forall|j: int| 0 <= j < k ==> table[j] != b);
    if c < k {
        assert(table[c] != table[k]);
    } else if c > k {
        assert(table[k] != table[c]);
    }
}

/// Hex decoding undoes hex encoding, for a table of 16 distinct digits
/// and any separator.
pub proof fn law_hex_decode_inverts_encode(d: Seq<u8>, table: Seq<u8>, separator: u8)
    requires
        table.len() == 16,
        distinct_table(table),
    ensures
        spec_hex_decode(spec_hex_encode(d, table, separator), table, if separator != 0 {
            3
        } else {
            2
        }) == d,
    decreases d.len(),
{
    let seg: int = if separator != 0 {
        3
    } else {
        2
    };
    let s = spec_hex_encode(d, table, separator);
    if d.len() == 0 {
        assert(spec_hex_decode(s, table, seg) =~= d);
    } else {
        let x = d[0];
        let e = d.skip(1);
        lemma_table_pos(table, (x / 16) as int);
        lemma_table_pos(table, (x % 16) as int);
        assert(s[0] == table[(x / 16) as int]);
        assert(s[1] == table[(x % 16) as int]);
        assert(((x / 16) * 16 + x % 16) as u8 == x);
        if e.len() == 0 {
            assert(hex_encode_tail(e, table, separator) =~= Seq::<u8>::empty());
            assert(s =~= hex_pair(x, table));
            assert(rest_from(s, seg) =~= Seq::<u8>::empty());
            assert(spec_hex_encode(e, table, separator) =~= Seq::<u8>::empty());
        } else {
            let te = hex_encode_tail(e.skip(1), table, separator);
            assert(hex_encode_tail(e, table, separator) == hex_separator(separator) + hex_pair(
                e[0],
                table,
            ) + te);
            assert(s =~= hex_pair(x, table) + hex_separator(separator) + (hex_pair(e[0], table)
                + te));
            assert(rest_from(s, seg) =~= hex_pair(e[0], table) + te);
        }
        law_hex_decode_inverts_encode(e, table, separator);
        assert(seq![x] + e =~= d);
    }
}


/// The index of the first `%` at or after `from`.
pub open spec fn find_percent(s: Seq<u8>, from: int) -> Option<int>
    decreases s.len() - from,
{
    if from < 0 || from >= s.len() {
        None
    } else if s[from] == '%' as u8 {
        Some(from)
    } else {
        find_percent(s, from + 1)
    }
}

/// The value of the first variable named `name`, or nothing where none is.
pub open spec fn template_value(vars: Seq<(Seq<u8>, Seq<u8>)>, name: Seq<u8>) -> Seq<u8>
    decreases vars.len(),
{
    if vars.len() == 0 {
        Seq::empty()
    } else if vars[0].0 == name {
        vars[0].1
    } else {
        template_value(vars.skip(1), name)
    }
}

/// How many bytes of `s` lie at or after `i`.
pub open spec fn left_after(s: Seq<u8>, i: int) -> nat {
    if 0 <= i < s.len() {
        (s.len() - i) as nat
    } else {
        0
    }
}

/// The bytes of `s[i..]` with template variables replaced: `%name%`
/// becomes the value of the variable, or nothing if there is none; `%%`
/// becomes `%`; a `%` with no `%` after it stays.
pub open spec fn template_from(s: Seq<u8>, vars: Seq<(Seq<u8>, Seq<u8>)>, i: int) -> Seq<u8>
    decreases left_after(s, i),
{
    if i < 0 || i >= s.len() {
        Seq::empty()
    } else if s[i] != '%' as u8 {
        seq![s[i]] + template_from(s, vars, i + 1)
    } else {
        match find_percent(s, i + 1) {
            None => seq![s[i]] + template_from(s, vars, i + 1),
            Some(e) => if e <= i {
                Seq::empty()
            } else if e - i == 1 {
                seq!['%' as u8] + template_from(s, vars, e + 1)
            } else {
                template_value(vars, s.subrange(i + 1, e)) + template_from(s, vars, e + 1)
            },
        }
    }
}

/// The variables as pairs of byte strings.
pub open spec fn vars_view(vars: Seq<(Vec<u8>, Vec<u8>)>) -> Seq<(Seq<u8>, Seq<u8>)> {
    Seq::new(vars.len(), |i: int| (vars[i].0@, vars[i].1@))
}

fn find_percent_of(s: &[u8], from: usize) -> (r: Option<usize>)
    requires
        from <= s@.len(),
    ensures
        r matches Some(p) ==> find_percent(s@, from as int) == Some(p as int) && from <= p < s@.len(),
        r is None ==> find_percent(s@, from as int) is None,
{
    let mut i = from;
    while i < s.len()
        invariant
            from <= i <= s@.len(),
            find_percent(s@, from as int) == find_percent(s@, i as int),
        decreases s.len() - i,
    {
        if s[i] == '%' as u8 {
            return Some(i);
        }
        i = i + 1;
    }
    None
}

fn slices_equal(a: &[u8], b: &[u8]) -> (r: bool)
    ensures
        r == (a@ == b@),
{
    if a.len() != b.len() {
        return false;
    }
    let mut i: usize = 0;
    while i < a.len()
        invariant
            a@.len() == b@.len(),
            i <= a@.len(),
            forall|j: int| 0 <= j < i ==> a@[j] == b@[j],
        decreases a.len() - i,
    {
        if a[i] != b[i] {
            return false;
        }
        i = i + 1;
    }
    proof {
        assert(a@ =~= b@);
    }
    true
}

fn append_bytes(out: &mut Vec<u8>, b: &[u8])
    ensures
        final(out)@ == old(out)@ + b@,
{
    let mut i: usize = 0;
    while i < b.len()
        invariant
            i <= b@.len(),
            out@ == old(out)@ + b@.take(i as int),
        decreases b.len() - i,
    {
        out.push(b[i]);
        proof {
            assert(b@.take(i + 1) =~= b@.take(i as int).push(b@[i as int]));
        }
        i = i + 1;
    }
    proof {
        assert(b@.take(b@.len() as int) =~= b@);
    }
}

fn append_template_value(out: &mut Vec<u8>, vars: &Vec<(Vec<u8>, Vec<u8>)>, name: &[u8])
    ensures
        final(out)@ == old(out)@ + template_value(vars_view(vars@), name@),
{
    let ghost vv = vars_view(vars@);
    let mut i: usize = 0;
    proof {
        assert(vv.skip(0) =~= vv);
    }
    while i < vars.len()
        invariant
            i <= vars@.len(),
            vv == vars_view(vars@),
            out@ == old(out)@,
            template_value(vv, name@) == template_value(vv.skip(i as int), name@),
        decreases vars.len() - i,
    {
        let ghost rest = vv.skip(i as int);
        proof {
            assert(rest[0] == (vars@[i as int].0@, vars@[i as int].1@));
            assert(rest.skip(1) =~= vv.skip(i + 1));
        }
        if slices_equal(vars[i].0.as_slice(), name) {
            append_bytes(out, vars[i].1.as_slice());
            return;
        }
        i = i + 1;
    }
    proof {
        assert(vv.skip(i as int) =~= Seq::<(Seq<u8>, Seq<u8>)>::empty());
        assert(old(out)@ + Seq::<u8>::empty() =~= old(out)@);
    }
}

/// Replaces template variables like `%foo%` within a byte string; `%%`
/// stands for `%`.
pub fn template_replace(s: &[u8], vars: &Vec<(Vec<u8>, Vec<u8>)>) -> (r: Vec<u8>)
    ensures
        r@ == template_from(s@, vars_view(vars@), 0),
{
    let ghost vv = vars_view(vars@);
    let mut out: Vec<u8> = Vec::new();
    let mut idx: usize = 0;
    proof {
        assert(Seq::<u8>::empty() + template_from(s@, vv, 0) =~= template_from(s@, vv, 0));
    }
    while idx < s.len()
        invariant
            idx <= s@.len(),
            vv == vars_view(vars@),
            template_from(s@, vv, 0) == out@ + template_from(s@, vv, idx as int),
        decreases s.len() - idx,
    {
        let ghost before = out@;
        if s[idx] != '%' as u8 {
            let b = s[idx];
            out.push(b);
            proof {
                assert(before.push(b) + template_from(s@, vv, idx + 1) =~= before + (seq![b]
                    + template_from(s@, vv, idx + 1)));
            }
            idx = idx + 1;
            continue;
        }
        match find_percent_of(s, idx + 1) {
            None => {
                out.push('%' as u8);
                proof {
                    assert(before.push('%' as u8) + template_from(s@, vv, idx + 1) =~= before + (
                    seq!['%' as u8] + template_from(s@, vv, idx + 1)));
                }
                idx = idx + 1;
            },
            Some(endidx) => {
                if endidx - idx == 1 {
                    out.push('%' as u8);
                    proof {
                        assert(before.push('%' as u8) + template_from(s@, vv, endidx + 1) =~= before
                            + (seq!['%' as u8] + template_from(s@, vv, endidx + 1)));
                    }
                } else {
                    let name = vstd::slice::slice_subrange(s, idx + 1, endidx);
                    append_template_value(&mut out, vars, name);
                    proof {
                        assert(out@ + template_from(s@, vv, endidx + 1) =~= before + (
                        template_value(vv, s@.subrange(idx + 1, endidx as int)) + template_from(
                            s@,
                            vv,
                            endidx + 1,
                        )));
                    }
                }
                idx = endidx + 1;
            },
        }
    }
    proof {
        assert(out@ + Seq::<u8>::empty() =~= out@);
    }
    out
}

/// A token names something: it is not empty and not only whitespace.
pub open spec fn is_token(t: Seq<char>) -> bool {
    trim_chars(t).len() != 0
}

/// The token made of a lone `*`.
pub open spec fn is_wildcard_token(t: Seq<char>) -> bool {
    t == seq!['*']
}

/// The tokens joined with single spaces.
pub open spec fn space_join(toks: Seq<Seq<char>>) -> Seq<char>
    decreases toks.len(),
{
    if toks.len() == 0 {
        Seq::empty()
    } else if toks.len() == 1 {
        toks[0]
    } else {
        space_join(toks.drop_last()) + seq![' '] + toks.last()
    }
}

/// Each token with ` -` before it, all concatenated.
pub open spec fn excluded_join(toks: Seq<Seq<char>>) -> Seq<char>
    decreases toks.len(),
{
    if toks.len() == 0 {
        Seq::empty()
    } else {
        excluded_join(toks.drop_last()) + seq![' ', '-'] + toks.last()
    }
}

/// The standard Base64 alphabet: `A`-`Z`, `a`-`z`, `0`-`9`, `+` and `/`.
pub open spec fn spec_base64_table() -> Seq<u8> {
    Seq::new(
        64,
        |i: int|
            if i < 26 {
                (65 + i) as u8
            } else if i < 52 {
                (97 + i - 26) as u8
            } else if i < 62 {
                (48 + i - 52) as u8
            } else if i == 62 {
                43u8
            } else {
                47u8
            },
    )
}

/// The standard Base64 alphabet.
pub fn base64_table() -> (r: Vec<u8>)
    ensures
        r@ == spec_base64_table(),
{
    let mut t: Vec<u8> = Vec::new();
    let mut i: u8 = 0;
    while i < 64
        invariant
            i <= 64,
            t@ == spec_base64_table().take(i as int),
        decreases 64 - i,
    {
        let c: u8 = if i < 26 {
            65 + i
        } else if i < 52 {
            97 + i - 26
        } else if i < 62 {
            48 + i - 52
        } else if i == 62 {
            43
        } else {
            47
        };
        t.push(c);
        proof {
            assert(spec_base64_table().take(i + 1) =~= spec_base64_table().take(i as int).push(c));
        }
        i = i + 1;
    }
    proof {
        assert(spec_base64_table().take(64) =~= spec_base64_table());
    }
    t
}

/// The byte of `d` at `i`, or 0 past its end.
pub open spec fn octet_or_zero(d: Seq<u8>, i: int) -> int {
    if 0 <= i < d.len() {
        d[i] as int
    } else {
        0
    }
}

/// The 24-bit value of the `g`-th group of three bytes of `d`.
pub open spec fn base64_triple(d: Seq<u8>, g: int) -> int {
    octet_or_zero(d, 3 * g) * 65536 + octet_or_zero(d, 3 * g + 1) * 256 + octet_or_zero(d, 3 * g + 2)
}

/// The 6-bit value that the `i`-th output char of the encoding of `d`
/// stands for: the `i % 4`-th sextet, high bits first, of group `i / 4`.
pub open spec fn base64_sextet(d: Seq<u8>, i: int) -> int {
    let t = base64_triple(d, i / 4);
    let j = i % 4;
    if j == 0 {
        t / 262144
    } else if j == 1 {
        (t / 4096) % 64
    } else if j == 2 {
        (t / 64) % 64
    } else {
        t % 64
    }
}

/// How many trailing chars of the last group stand for no input byte.
pub open spec fn base64_pad_count(n: int) -> int {
    if n % 3 == 0 {
        0
    } else if n % 3 == 1 {
        2
    } else {
        1
    }
}

/// The Base64 encoding of `d` in the given alphabet: four chars per group
/// of three bytes (the last group filled with zero bytes), with the chars
/// that stand for no input byte replaced by the padding byte, or dropped
/// where the padding byte is 0.
pub open spec fn spec_base64_encode(d: Seq<u8>, table: Seq<u8>, padding: u8) -> Seq<u8> {
    let full = 4 * ((d.len() + 2) / 3);
    let pc = base64_pad_count(d.len() as int);
    if padding != 0 {
        Seq::new(full as nat, |i: int| if i >= full - pc { padding } else { table[base64_sextet(d, i)] })
    } else {
        Seq::new((full - pc) as nat, |i: int| table[base64_sextet(d, i)])
    }
}

fn octet_at(d: &[u8], i: usize) -> (r: u32)
    ensures
        r == octet_or_zero(d@, i as int),
{
    if i < d.len() {
        d[i] as u32
    } else {
        0
    }
}

/// Encodes bytes as Base64 in the given alphabet (of at least 64 bytes),
/// padding with `padding` unless it is 0.
pub fn base64_encode(data: &[u8], table: &[u8], padding: u8) -> (r: Vec<u8>)
    requires
        table@.len() >= 64,
    ensures
        r@ == spec_base64_encode(data@, table@, padding),
{
    let length = data.len();
    let ghost d = data@;
    let mut buffer: Vec<u8> = Vec::new();
    let mut idx: usize = 0;
    while idx < length
        invariant
            length == d.len(),
            d == data@,
            table@.len() >= 64,
            idx <= length,
            idx % 3 == 0 || idx == length,
            buffer@.len() == 4 * ((idx + 2) / 3),
            forall|i: int| 0 <= i < buffer@.len() ==> #[trigger] buffer@[i] == table@[base64_sextet(d, i)],
        decreases length - idx,
    {
        let ghost g: int = idx as int / 3;
        let o1 = octet_at(data, idx);
        let o2 = if length - idx > 1 { octet_at(data, idx + 1) } else { 0 };
        let o3 = if length - idx > 2 { octet_at(data, idx + 2) } else { 0 };
        proof {
            assert(idx == 3 * g);
            assert(o2 == octet_or_zero(d, 3 * g + 1));
            assert(o3 == octet_or_zero(d, 3 * g + 2));
        }
        let triple: u32 = o1 * 65536 + o2 * 256 + o3;
        assert(triple == base64_triple(d, g));
        let ghost before = buffer@;
        buffer.push(table[(triple / 262144) as usize]);
        buffer.push(table[((triple / 4096) % 64) as usize]);
        buffer.push(table[((triple / 64) % 64) as usize]);
        buffer.push(table[(triple % 64) as usize]);
        proof {
            assert(before.len() == 4 * g);
            assert forall|i: int| 0 <= i < buffer@.len() implies #[trigger] buffer@[i] == table@[base64_sextet(d, i)] by {
                if i >= before.len() {
                    assert(i / 4 == g);
                }
            }
        }
        idx = if length - idx > 3 { idx + 3 } else { length };
    }
    let pc: usize = if length % 3 == 0 {
        0
    } else if length % 3 == 1 {
        2
    } else {
        1
    };
    let ghost full = 4 * ((length + 2) / 3);
    assert(buffer@.len() == full);
    if padding != 0 {
        let mut i: usize = 0;
        while i < pc
            invariant
                buffer@.len() == full,
                pc == base64_pad_count(length as int),
                pc <= full,
                i <= pc,
                forall|k: int| 0 <= k < full ==> #[trigger] buffer@[k] == (if k >= full - i { padding } else { table@[base64_sextet(d, k)] }),
            decreases pc - i,
        {
            let pos = buffer.len() - 1 - i;
            buffer.set(pos, padding);
            i = i + 1;
        }
        proof {
            assert(buffer@ =~= spec_base64_encode(d, table@, padding));
        }
    } else {
        let new_len = buffer.len() - pc;
        buffer.truncate(new_len);
        proof {
            assert(buffer@ =~= spec_base64_encode(d, table@, padding));
        }
    }
    buffer
}

/// The first position of `c` in the table.
pub open spec fn first_position(table: Seq<u8>, c: u8) -> Option<int> {
    if exists|i: int| 0 <= i < table.len() && table[i] == c {
        Some(
            choose|i: int|
                0 <= i < table.len() && table[i] == c && forall|j: int| 0 <= j < i ==> table[j] != c,
        )
    } else {
        None
    }
}

/// One step of Base64 decoding: a byte found in the table adds six bits
/// (its first position there) to the pending bits, and once eight are
/// pending they give a byte; a byte not in the table changes nothing.
/// Gives the new pending bits, how many are pending, and the byte made.
pub open spec fn base64_step(table: Seq<u8>, c: u8, bits: u32, seen: int) -> (u32, int, Option<u8>) {
    match first_position(table, c) {
        None => (bits, seen, None),
        Some(p) => {
            let nb = (bits << 6u32) | (p as u32);
            if seen + 6 >= 8 {
                (nb, seen - 2, Some(((nb >> ((seen - 2) as u32)) & 0xFFu32) as u8))
            } else {
                (nb, seen + 6, None)
            }
        },
    }
}

/// The Base64 decoding of `d[i..]`, given the pending bits (the low `seen`
/// of `bits`): the bytes that the steps make, in order.
#[verifier::opaque]
pub open spec fn base64_decode_from(d: Seq<u8>, table: Seq<u8>, i: int, bits: u32, seen: int) -> Seq<u8>
    decreases d.len() - i,
{
    if i < 0 || i >= d.len() {
        Seq::empty()
    } else {
        let st = base64_step(table, d[i], bits, seen);
        match st.2 {
            Some(b) => seq![b] + base64_decode_from(d, table, i + 1, st.0, st.1),
            None => base64_decode_from(d, table, i + 1, st.0, st.1),
        }
    }
}

/// The Base64 decoding of `d` in the given alphabet.
pub open spec fn spec_base64_decode(d: Seq<u8>, table: Seq<u8>) -> Seq<u8> {
    base64_decode_from(d, table, 0, 0, 0)
}

fn first_position_of(table: &[u8], c: u8) -> (r: Option<usize>)
    ensures
        match first_position(table@, c) {
            Some(p) => r == Some(p as usize) && 0 <= p < table@.len(),
            None => r is None,
        },
        table@.len() <= usize::MAX,
{
    let mut i: usize = 0;
    while i < table.len()
        invariant
            i <= table@.len(),
            forall|j: int| 0 <= j < i ==> table@[j] != c,
        decreases table.len() - i,
    {
        if table[i] == c {
            proof {
                let k = choose|k: int|
                    0 <= k < table@.len() && table@[k] == c && forall|j: int| 0 <= j < k ==> table@[j] != c;
                assert(k == i) by {
                    if k < i {
                        assert(table@[k] != c);
                    } else if k > i {
                        assert(table@[i as int] != c);
                    }
                }
            }
            return Some(i);
        }
        i = i + 1;
    }
    None
}

proof fn lemma_base64_decode_unfold(d: Seq<u8>, table: Seq<u8>, i: int, bits: u32, seen: int)
    requires
        0 <= i < d.len(),
    ensures
        base64_decode_from(d, table, i, bits, seen) == (match base64_step(table, d[i], bits, seen).2 {
            Some(b) => seq![b] + base64_decode_from(
                d,
                table,
                i + 1,
                base64_step(table, d[i], bits, seen).0,
                base64_step(table, d[i], bits, seen).1,
            ),
            None => base64_decode_from(
                d,
                table,
                i + 1,
                base64_step(table, d[i], bits, seen).0,
                base64_step(table, d[i], bits, seen).1,
            ),
        }),
{
    reveal(base64_decode_from);
}

fn decode_step(table: &[u8], c: u8, bits: u32, seen: usize) -> (r: (u32, usize, Option<u8>))
    requires
        seen < 8,
    ensures
        r.1 < 8,
        (r.0, r.1 as int, r.2) == base64_step(table@, c, bits, seen as int),
{
    match first_position_of(table, c) {
        Some(pos) => {
            let nb = (bits << 6u32) | (pos as u32);
            if seen + 6 >= 8 {
                let s = seen - 2;
                (nb, s, Some(((nb >> (s as u32)) & 0xFFu32) as u8))
            } else {
                (nb, seen + 6, None)
            }
        },
        None => (bits, seen, None),
    }
}

/// Decodes Base64 in the given alphabet; bytes outside it are skipped.
pub fn base64_decode(data: &[u8], table: &[u8]) -> (r: Vec<u8>)
    ensures
        r@ == spec_base64_decode(data@, table@),
{
    let mut buffer: Vec<u8> = Vec::new();
    let mut current_bits: u32 = 0;
    let mut seen_bits: usize = 0;
    let mut i: usize = 0;
    while i < data.len()
        invariant
            i <= data@.len(),
            seen_bits < 8,
            buffer@ + base64_decode_from(data@, table@, i as int, current_bits, seen_bits as int)
                == spec_base64_decode(data@, table@),
        decreases data.len() - i,
    {
        let ghost before = buffer@;
        let ghost rest = base64_decode_from(data@, table@, i as int, current_bits, seen_bits as int);
        let (nb, ns, out) = decode_step(table, data[i], current_bits, seen_bits);
        proof {
            lemma_base64_decode_unfold(data@, table@, i as int, current_bits, seen_bits as int);
        }
        match out {
            Some(b) => {
                buffer.push(b);
                proof {
                    assert(rest == seq![b] + base64_decode_from(data@, table@, i + 1, nb, ns as int));
                    assert(before + rest =~= buffer@ + base64_decode_from(data@, table@, i + 1, nb, ns as int));
                }
            },
            None => {
                proof {
                    assert(rest == base64_decode_from(data@, table@, i + 1, nb, ns as int));
                }
            },
        }
        current_bits = nb;
        seen_bits = ns;
        i = i + 1;
    }
    proof {
        reveal(base64_decode_from);
        assert(buffer@ + Seq::<u8>::empty() =~= buffer@);
    }
    buffer
}

proof fn lemma_first_position(table: Seq<u8>, k: int)
    requires
        distinct_table(table),
        0 <= k < table.len(),
    ensures
        first_position(table, table[k]) == Some(k),
{
    let b = table[k];
    assert(0 <= k < table.len() && table[k] == b && forall|j: int| 0 <= j < k ==> table[j] != b);
    let c = choose|i: int| 0 <= i < table.len() && table[i] == b && forall|j: int| 0 <= j < i ==> table[j] != b;
    if c < k {
        assert(table[c] != table[k]);
    } else if c > k {
        assert(table[k] != table[c]);
    }
}

/// The bytes of one group come back out of its four sextets, whatever bits
/// were pending before.
proof fn lemma_base64_group_bits(b: u32, x: u32, y: u32, z: u32, t: u32, p0: u32, p1: u32, p2: u32, p3: u32)
    by (bit_vector)
    requires
        x < 256,
        y < 256,
        z < 256,
        t == x * 65536 + y * 256 + z,
        p0 == t / 262144,
        p1 == (t / 4096) % 64,
        p2 == (t / 64) % 64,
        p3 == t % 64,
    ensures
        (((((b << 6u32) | p0) << 6u32) | p1) >> 4u32) & 0xFFu32 == x,
        (((((((b << 6u32) | p0) << 6u32) | p1) << 6u32) | p2) >> 2u32) & 0xFFu32 == y,
        (((((((((b << 6u32) | p0) << 6u32) | p1) << 6u32) | p2) << 6u32) | p3) >> 0u32) & 0xFFu32 == z,
{
}

/// Decoding bytes none of which is in the table gives nothing.
proof fn lemma_base64_decode_skips(d: Seq<u8>, table: Seq<u8>, i: int, bits: u32, seen: int)
    requires
        0 <= i,
        forall|j: int, k: int| i <= j < d.len() && 0 <= k < table.len() ==> #[trigger] table[k] != #[trigger] d[j],
    ensures
        base64_decode_from(d, table, i, bits, seen) == Seq::<u8>::empty(),
    decreases d.len() - i,
{
    if i >= d.len() {
        reveal(base64_decode_from);
    } else {
        lemma_base64_decode_unfold(d, table, i, bits, seen);
        assert(first_position(table, d[i]) is None);
        lemma_base64_decode_skips(d, table, i + 1, bits, seen);
    }
}

/// The chars of the encoding that stand for input bits are table entries
/// at the sextets; the others are padding.
proof fn lemma_base64_encoding_at(d: Seq<u8>, table: Seq<u8>, padding: u8, i: int)
    requires
        0 <= i < spec_base64_encode(d, table, padding).len(),
    ensures
        i < 4 * ((d.len() + 2) / 3) - base64_pad_count(d.len() as int) ==> spec_base64_encode(d, table, padding)[i]
            == table[base64_sextet(d, i)],
        i >= 4 * ((d.len() + 2) / 3) - base64_pad_count(d.len() as int) ==> padding != 0
            && spec_base64_encode(d, table, padding)[i] == padding,
{
}

/// Decoding the encoding from the start of group `g`, with no bits
/// pending, gives back the input bytes from `3 * g` on.
proof fn lemma_base64_decode_groups(d: Seq<u8>, table: Seq<u8>, padding: u8, g: int, bits: u32)
    requires
        table.len() >= 64,
        distinct_table(table),
        forall|k: int| 0 <= k < table.len() ==> table[k] != padding,
        0 <= g,
        3 * g <= d.len(),
    ensures
        base64_decode_from(spec_base64_encode(d, table, padding), table, 4 * g, bits, 0) == d.subrange(
            3 * g,
            d.len() as int,
        ),
    decreases d.len() - 3 * g,
{
    let e = spec_base64_encode(d, table, padding);
    let n = d.len() as int;
    let full = 4 * ((n + 2) / 3);
    let pc = base64_pad_count(n);
    let rest = n - 3 * g;
    if rest == 0 {
        assert(e.len() <= 4 * g);
        reveal(base64_decode_from);
        assert(d.subrange(3 * g, n) =~= Seq::<u8>::empty());
        return;
    }
    let x = d[3 * g];
    let y: u8 = if rest >= 2 { d[3 * g + 1] } else { 0 };
    let z: u8 = if rest >= 3 { d[3 * g + 2] } else { 0 };
    let t = base64_triple(d, g);
    assert(t == x * 65536 + y * 256 + z);
    assert(0 <= t < 16777216);
    let p0 = base64_sextet(d, 4 * g);
    let p1 = base64_sextet(d, 4 * g + 1);
    let p2 = base64_sextet(d, 4 * g + 2);
    let p3 = base64_sextet(d, 4 * g + 3);
    assert(p0 == t / 262144 && p1 == (t / 4096) % 64 && p2 == (t / 64) % 64 && p3 == t % 64);
    assert(0 <= p0 < 64 && 0 <= p1 < 64 && 0 <= p2 < 64 && 0 <= p3 < 64);
    lemma_base64_group_bits(
        bits,
        x as u32,
        y as u32,
        z as u32,
        t as u32,
        p0 as u32,
        p1 as u32,
        p2 as u32,
        p3 as u32,
    );
    let b1 = (bits << 6u32) | (p0 as u32);
    let b2 = (b1 << 6u32) | (p1 as u32);
    let b3 = (b2 << 6u32) | (p2 as u32);
    let b4 = (b3 << 6u32) | (p3 as u32);
    assert(full >= 4 * g + 4);
    // the first two chars of the group always stand for input bits
    lemma_base64_encoding_at(d, table, padding, 4 * g);
    lemma_base64_encoding_at(d, table, padding, 4 * g + 1);
    lemma_first_position(table, p0);
    lemma_first_position(table, p1);
    lemma_base64_decode_unfold(e, table, 4 * g, bits, 0);
    assert(base64_step(table, e[4 * g], bits, 0) == (b1, 6int, None::<u8>));
    lemma_base64_decode_unfold(e, table, 4 * g + 1, b1, 6);
    assert(base64_step(table, e[4 * g + 1], b1, 6) == (b2, 4int, Some(x)));
    if rest == 1 {
        assert(pc == 2 && full == 4 * g + 4);
        assert forall|j: int, k: int| 4 * g + 2 <= j < e.len() && 0 <= k < table.len() implies #[trigger] table[k]
            != #[trigger] e[j] by {
            lemma_base64_encoding_at(d, table, padding, j);
        }
        lemma_base64_decode_skips(e, table, 4 * g + 2, b2, 4);
        assert(d.subrange(3 * g, n) =~= seq![x]);
        assert(seq![x] + Seq::<u8>::empty() =~= seq![x]);
        return;
    }
    lemma_base64_encoding_at(d, table, padding, 4 * g + 2);
    lemma_first_position(table, p2);
    lemma_base64_decode_unfold(e, table, 4 * g + 2, b2, 4);
    assert(base64_step(table, e[4 * g + 2], b2, 4) == (b3, 2int, Some(y)));
    if rest == 2 {
        assert(pc == 1 && full == 4 * g + 4);
        assert forall|j: int, k: int| 4 * g + 3 <= j < e.len() && 0 <= k < table.len() implies #[trigger] table[k]
            != #[trigger] e[j] by {
            lemma_base64_encoding_at(d, table, padding, j);
        }
        lemma_base64_decode_skips(e, table, 4 * g + 3, b3, 2);
        assert(d.subrange(3 * g, n) =~= seq![x, y]);
        assert(seq![x] + (seq![y] + Seq::<u8>::empty()) =~= seq![x, y]);
        return;
    }
    assert(full - pc >= 4 * g + 4);
    lemma_base64_encoding_at(d, table, padding, 4 * g + 3);
    lemma_first_position(table, p3);
    lemma_base64_decode_unfold(e, table, 4 * g + 3, b3, 2);
    assert(base64_step(table, e[4 * g + 3], b3, 2) == (b4, 0int, Some(z)));
    lemma_base64_decode_groups(d, table, padding, g + 1, b4);
    assert(4 * (g + 1) == 4 * g + 4);
    assert(d.subrange(3 * g, n) =~= seq![x] + (seq![y] + (seq![z] + d.subrange(3 * (g + 1), n))));
}

/// Base64 decoding undoes Base64 encoding, for an alphabet of distinct
/// bytes and a padding byte outside it (0 for no padding).
pub proof fn law_base64_decode_inverts_encode(d: Seq<u8>, table: Seq<u8>, padding: u8)
    requires
        table.len() >= 64,
        distinct_table(table),
        forall|k: int| 0 <= k < table.len() ==> table[k] != padding,
    ensures
        spec_base64_decode(spec_base64_encode(d, table, padding), table) == d,
{
    lemma_base64_decode_groups(d, table, padding, 0, 0);
    assert(d.subrange(0, d.len() as int) =~= d);
}

/// Whether a list in the given mode with the given token set has the
/// token: in permissive mode, when its lowercase form is not held;
/// otherwise when it is.
pub open spec fn state_has(st: (bool, Set<Seq<char>>), t: Seq<char>) -> bool {
    if st.0 {
        !st.1.contains(unicode_lowercase(t))
    } else {
        st.1.contains(unicode_lowercase(t))
    }
}

/// The effect of adding a token to a list's mode and token set.
pub open spec fn add_effect(st: (bool, Set<Seq<char>>), t: Seq<char>) -> (bool, Set<Seq<char>>) {
    if !is_token(t) {
        st
    } else if is_wildcard_token(t) {
        (true, Set::empty())
    } else if st.0 {
        (true, st.1.remove(unicode_lowercase(t)))
    } else {
        (false, st.1.insert(unicode_lowercase(t)))
    }
}

/// The effect of removing a token from a list's mode and token set.
pub open spec fn remove_effect(st: (bool, Set<Seq<char>>), t: Seq<char>) -> (bool, Set<Seq<char>>) {
    if !is_token(t) {
        st
    } else if is_wildcard_token(t) {
        (false, Set::empty())
    } else if st.0 {
        (true, st.1.insert(unicode_lowercase(t)))
    } else {
        (false, st.1.remove(unicode_lowercase(t)))
    }
}

/// The effect of one token of a list: `-name` removes `name`, any other
/// token is added.
pub open spec fn list_effect(st: (bool, Set<Seq<char>>), t: Seq<char>) -> (bool, Set<Seq<char>>) {
    if t.len() > 0 && t[0] == '-' {
        remove_effect(st, t.drop_first())
    } else {
        add_effect(st, t)
    }
}

/// The effect of the tokens of a list, in order.
pub open spec fn apply_list(st: (bool, Set<Seq<char>>), toks: Seq<Seq<char>>) -> (bool, Set<Seq<char>>)
    decreases toks.len(),
{
    if toks.len() == 0 {
        st
    } else {
        list_effect(apply_list(st, toks.drop_last()), toks.last())
    }
}

/// A char that separates the tokens of a list: a space or a tab.
pub open spec fn is_list_separator(c: char) -> bool {
    c == ' ' || c == '\t'
}

/// The tokens of `s[p..]` separated by spaces and tabs, where `start` is
/// the beginning of a token still open at `p`.
pub open spec fn list_tokens_from(s: Seq<char>, p: int, start: Option<int>) -> Seq<Seq<char>>
    decreases s.len() - p,
{
    if p >= s.len() {
        match start {
            Some(st) => seq![s.subrange(st, s.len() as int)],
            None => Seq::empty(),
        }
    } else if is_list_separator(s[p]) {
        match start {
            Some(st) => seq![s.subrange(st, p)] + list_tokens_from(s, p + 1, None),
            None => list_tokens_from(s, p + 1, None),
        }
    } else {
        match start {
            Some(st) => list_tokens_from(s, p + 1, Some(st)),
            None => list_tokens_from(s, p + 1, Some(p)),
        }
    }
}

/// The maximal runs of chars that are neither spaces nor tabs, in order.
pub open spec fn list_tokens(s: Seq<char>) -> Seq<Seq<char>> {
    list_tokens_from(s, 0, None)
}

/// A list of tokens: either the tokens allowed, or (in permissive mode,
/// entered with `*`) all tokens but those listed. Tokens are kept in their
/// lowercase form, each once.
pub struct TokenList {
    permissive: bool,
    tokens: Vec<String>,
}

impl TokenList {
    /// Whether the list allows every token but those it holds.
    pub closed spec fn is_permissive(&self) -> bool {
        self.permissive
    }

    /// The tokens held, in a fixed order.
    pub closed spec fn tokens(&self) -> Seq<Seq<char>> {
        self.tokens@.map_values(|s: String| s@)
    }

    /// The tokens held, as a set.
    pub open spec fn token_set(&self) -> Set<Seq<char>> {
        self.tokens().to_set()
    }

    /// No token is held twice.
    pub open spec fn well_formed(&self) -> bool {
        self.tokens().no_duplicates()
    }

    /// The mode and the set of tokens held.
    pub open spec fn state(&self) -> (bool, Set<Seq<char>>) {
        (self.is_permissive(), self.token_set())
    }

    /// Whether the list has the token: in permissive mode, when its
    /// lowercase form is not held; otherwise when it is.
    pub open spec fn has(&self, t: Seq<char>) -> bool {
        state_has(self.state(), t)
    }

    /// An empty list, not permissive.
    pub fn new() -> (r: Self)
        ensures
            r.well_formed(),
            !r.is_permissive(),
            r.tokens() == Seq::<Seq<char>>::empty(),
    {
        let r = TokenList { permissive: false, tokens: Vec::new() };
        proof {
            assert(r.tokens() =~= Seq::<Seq<char>>::empty());
        }
        r
    }

    /// A list made from a space-separated list of tokens.
    pub fn from_list(list: &str) -> (r: Self)
        ensures
            r.well_formed(),
            r.state() == apply_list((false, Set::<Seq<char>>::empty()), list_tokens(list@)),
    {
        let mut r = TokenList::new();
        proof {
            assert(r.token_set() =~= Set::<Seq<char>>::empty());
        }
        r.add_list(list);
        r
    }

    /// Adds each token of a list separated by spaces and tabs; a token that
    /// begins with `-` removes what follows the `-` instead.
    pub fn add_list(&mut self, list: &str)
        requires
            old(self).well_formed(),
        ensures
            final(self).well_formed(),
            final(self).state() == apply_list(old(self).state(), list_tokens(list@)),
    {
        let v = str_chars(list);
        let n = v.len();
        let mut start: Option<usize> = None;
        let mut i: usize = 0;
        let ghost st0 = self.state();
        let ghost mut done: Seq<Seq<char>> = Seq::empty();
        while i < n
            invariant
                v@ == list@,
                n == v@.len(),
                i <= n,
                self.well_formed(),
                start matches Some(s) ==> s < i,
                done + list_tokens_from(v@, i as int, match start {
                    Some(s) => Some(s as int),
                    None => None,
                }) == list_tokens(list@),
                self.state() == apply_list(st0, done),
            decreases n - i,
        {
            if v[i] == ' ' || v[i] == '\t' {
                match start {
                    Some(s) => {
                        let tok = string_from_chars(&v, s, i);
                        let ghost tv = tok@;
                        self.apply_list_token(tok.as_str());
                        proof {
                            assert(done.push(tv).drop_last() =~= done);
                            assert(done + (seq![tv] + list_tokens_from(v@, i + 1, None)) =~= done.push(tv)
                                + list_tokens_from(v@, i + 1, None));
                            done = done.push(tv);
                        }
                    },
                    None => {},
                }
                start = None;
            } else {
                if start.is_none() {
                    start = Some(i);
                }
            }
            i = i + 1;
        }
        match start {
            Some(s) => {
                let tok = string_from_chars(&v, s, n);
                let ghost tv = tok@;
                self.apply_list_token(tok.as_str());
                proof {
                    assert(done.push(tv).drop_last() =~= done);
                    assert(done + seq![tv] =~= done.push(tv));
                    done = done.push(tv);
                }
            },
            None => {
                proof {
                    assert(done + Seq::<Seq<char>>::empty() =~= done);
                }
            },
        }
    }

    /// Applies one token of a list: `-name` removes `name`, any other token
    /// is added.
    fn apply_list_token(&mut self, tok: &str)
        requires
            old(self).well_formed(),
        ensures
            final(self).well_formed(),
            final(self).state() == list_effect(old(self).state(), tok@),
    {
        let v = str_chars(tok);
        if v.len() > 0 && v[0] == '-' {
            let rest = string_from_chars(&v, 1, v.len());
            proof {
                assert(rest@ =~= tok@.drop_first());
            }
            self.remove(rest.as_str());
        } else {
            self.add(tok);
        }
    }

    /// The position of `t` among the tokens held.
    fn position(&self, t: &str) -> (r: Option<usize>)
        ensures
            match r {
                Some(i) => i < self.tokens().len() && self.tokens()[i as int] == t@,
                None => !self.tokens().contains(t@),
            },
    {
        let mut i: usize = 0;
        while i < self.tokens.len()
            invariant
                i <= self.tokens@.len(),
                self.tokens().len() == self.tokens@.len(),
                forall|j: int| 0 <= j < i ==> self.tokens()[j] != t@,
            decreases self.tokens.len() - i,
        {
            assert(self.tokens()[i as int] == self.tokens@[i as int]@);
            if str_equals(self.tokens[i].as_str(), t) {
                return Some(i);
            }
            i = i + 1;
        }
        None
    }

    /// Holds `t` (already lowercase) where it is not held.
    fn insert_token(&mut self, t: String)
        requires
            old(self).well_formed(),
        ensures
            final(self).well_formed(),
            final(self).is_permissive() == old(self).is_permissive(),
            final(self).token_set() == old(self).token_set().insert(t@),
    {
        if self.position(t.as_str()).is_some() {
            proof {
                assert(self.token_set() =~= self.token_set().insert(t@));
            }
            return;
        }
        let ghost before = self.tokens();
        self.tokens.push(t);
        proof {
            assert(self.tokens() =~= before.push(t@));
            assert(self.token_set() =~= before.to_set().insert(t@)) by {
                assert forall|x: Seq<char>| self.tokens().contains(x) <==> (before.contains(x) || x == t@) by {
                    if self.tokens().contains(x) {
                        let k = choose|k: int| 0 <= k < self.tokens().len() && self.tokens()[k] == x;
                        if k < before.len() {
                            assert(before[k] == x);
                        }
                    }
                    if before.contains(x) {
                        let k = choose|k: int| 0 <= k < before.len() && before[k] == x;
                        assert(self.tokens()[k] == x);
                    }
                    if x == t@ {
                        assert(self.tokens()[before.len() as int] == x);
                    }
                }
            }
        }
    }

    /// Drops `t` (already lowercase) where it is held.
    fn remove_token(&mut self, t: &str)
        requires
            old(self).well_formed(),
        ensures
            final(self).well_formed(),
            final(self).is_permissive() == old(self).is_permissive(),
            final(self).token_set() == old(self).token_set().remove(t@),
    {
        let i = match self.position(t) {
            Some(i) => i,
            None => {
                proof {
                    assert(self.token_set() =~= self.token_set().remove(t@));
                }
                return;
            },
        };
        let ghost before = self.tokens();
        let _gone = self.tokens.remove(i);
        proof {
            let after = self.tokens();
            assert(after =~= before.remove(i as int));
            assert forall|a: int, b: int| 0 <= a < b < after.len() implies after[a] != after[b] by {
                let a2 = if a < i { a } else { a + 1 };
                let b2 = if b < i { b } else { b + 1 };
                assert(after[a] == before[a2] && after[b] == before[b2]);
            }
            assert(self.token_set() =~= before.to_set().remove(t@)) by {
                assert forall|x: Seq<char>| after.contains(x) <==> (before.contains(x) && x != t@) by {
                    if after.contains(x) {
                        let k = choose|k: int| 0 <= k < after.len() && after[k] == x;
                        let k2 = if k < i { k } else { k + 1 };
                        assert(before[k2] == x);
                        assert(k2 != i);
                    }
                    if before.contains(x) && x != t@ {
                        let k = choose|k: int| 0 <= k < before.len() && before[k] == x;
                        assert(k != i);
                        if k < i {
                            assert(after[k] == x);
                        } else {
                            assert(after[k - 1] == x);
                        }
                    }
                }
            }
        }
    }

    /// Empties the list and leaves permissive mode.
    pub fn clear(&mut self)
        ensures
            final(self).well_formed(),
            !final(self).is_permissive(),
            final(self).tokens() == Seq::<Seq<char>>::empty(),
    {
        self.permissive = false;
        self.tokens = Vec::new();
        proof {
            assert(self.tokens() =~= Seq::<Seq<char>>::empty());
        }
    }

    /// Adds a token: a blank token is ignored; `*` enters permissive mode
    /// with nothing excluded; otherwise the token's lowercase form is
    /// allowed (held, or in permissive mode no longer excluded).
    pub fn add(&mut self, token: &str)
        requires
            old(self).well_formed(),
        ensures
            final(self).well_formed(),
            final(self).state() == add_effect(old(self).state(), token@),
    {
        if is_blank(token) {
            return;
        }
        if str_equals(token, "*") {
            proof {
                reveal_strlit("*");
                assert("*"@ =~= seq!['*']);
            }
            self.permissive = true;
            self.tokens = Vec::new();
            proof {
                assert(self.tokens() =~= Seq::<Seq<char>>::empty());
                assert(self.token_set() =~= Set::<Seq<char>>::empty());
            }
            return;
        }
        proof {
            reveal_strlit("*");
            assert("*"@ =~= seq!['*']);
        }
        let lower = to_lowercase(token);
        let ghost st = self.state();
        assert(is_token(token@));
        assert(!is_wildcard_token(token@));
        if self.permissive {
            self.remove_token(lower.as_str());
            assert(self.token_set() == st.1.remove(unicode_lowercase(token@)));
            assert(self.is_permissive());
        } else {
            self.insert_token(lower);
        }
    }

    /// Removes a token: a blank token is ignored; `*` leaves permissive mode
    /// with nothing held; otherwise the token's lowercase form is disallowed
    /// (dropped, or in permissive mode excluded).
    pub fn remove(&mut self, token: &str)
        requires
            old(self).well_formed(),
        ensures
            final(self).well_formed(),
            final(self).state() == remove_effect(old(self).state(), token@),
    {
        if is_blank(token) {
            return;
        }
        if str_equals(token, "*") {
            proof {
                reveal_strlit("*");
                assert("*"@ =~= seq!['*']);
            }
            self.permissive = false;
            self.tokens = Vec::new();
            proof {
                assert(self.tokens() =~= Seq::<Seq<char>>::empty());
                assert(self.token_set() =~= Set::<Seq<char>>::empty());
            }
            return;
        }
        proof {
            reveal_strlit("*");
            assert("*"@ =~= seq!['*']);
        }
        let lower = to_lowercase(token);
        if self.permissive {
            self.insert_token(lower);
        } else {
            self.remove_token(lower.as_str());
        }
    }

    /// Whether the list has the token.
    pub fn contains(&self, token: &str) -> (r: bool)
        ensures
            r == self.has(token@),
    {
        let lower = to_lowercase(token);
        let held = self.position(lower.as_str()).is_some();
        if self.permissive {
            !held
        } else {
            held
        }
    }

    /// The list as text: in permissive mode `*` followed by ` -token` for
    /// each token held; otherwise the tokens held, separated by spaces.
    pub fn to_string(&self) -> (r: String)
        ensures
            r@ == (if self.is_permissive() {
                seq!['*'] + excluded_join(self.tokens())
            } else {
                space_join(self.tokens())
            }),
    {
        let mut buffer = String::new();
        let n = self.tokens.len();
        if self.permissive {
            push_char(&mut buffer, '*');
            let mut i: usize = 0;
            while i < n
                invariant
                    n == self.tokens().len(),
                    self.tokens().len() == self.tokens@.len(),
                    i <= n,
                    buffer@ == seq!['*'] + excluded_join(self.tokens().take(i as int)),
                decreases n - i,
            {
                let ghost before = buffer@;
                push_char(&mut buffer, ' ');
                push_char(&mut buffer, '-');
                push_str(&mut buffer, self.tokens[i].as_str());
                proof {
                    let tk = self.tokens();
                    assert(tk[i as int] == self.tokens@[i as int]@);
                    assert(tk.take(i + 1).drop_last() =~= tk.take(i as int));
                    assert(tk.take(i + 1).last() == tk[i as int]);
                    assert(buffer@ =~= seq!['*'] + excluded_join(tk.take(i + 1)));
                }
                i = i + 1;
            }
            proof {
                assert(self.tokens().take(n as int) =~= self.tokens());
            }
        } else {
            let mut i: usize = 0;
            while i < n
                invariant
                    n == self.tokens().len(),
                    self.tokens().len() == self.tokens@.len(),
                    i <= n,
                    buffer@ == space_join(self.tokens().take(i as int)),
                decreases n - i,
            {
                if i > 0 {
                    push_char(&mut buffer, ' ');
                }
                push_str(&mut buffer, self.tokens[i].as_str());
                proof {
                    let tk = self.tokens();
                    assert(tk[i as int] == self.tokens@[i as int]@);
                    assert(tk.take(i + 1).drop_last() =~= tk.take(i as int));
                    assert(tk.take(i + 1).last() == tk[i as int]);
                    if i == 0 {
                        assert(tk.take(1) =~= seq![tk[0]]);
                        assert(buffer@ =~= space_join(tk.take(1)));
                    } else {
                        assert(buffer@ =~= space_join(tk.take(i + 1)));
                    }
                }
                i = i + 1;
            }
            proof {
                assert(self.tokens().take(n as int) =~= self.tokens());
            }
        }
        buffer
    }

    /// Whether two lists are in the same mode and hold the same tokens.
    pub fn equals(&self, other: &TokenList) -> (r: bool)
        requires
            self.well_formed(),
            other.well_formed(),
        ensures
            r == (self.state() == other.state()),
    {
        if self.permissive != other.permissive {
            return false;
        }
        if self.tokens.len() != other.tokens.len() {
            proof {
                self.tokens().unique_seq_to_set();
                other.tokens().unique_seq_to_set();
            }
            return false;
        }
        let mut i: usize = 0;
        while i < self.tokens.len()
            invariant
                self.tokens().len() == self.tokens@.len(),
                i <= self.tokens@.len(),
                forall|j: int| 0 <= j < i ==> other.tokens().contains(#[trigger] self.tokens()[j]),
            decreases self.tokens.len() - i,
        {
            assert(self.tokens()[i as int] == self.tokens@[i as int]@);
            if other.position(self.tokens[i].as_str()).is_none() {
                proof {
                    assert(self.token_set().contains(self.tokens()[i as int]));
                }
                return false;
            }
            i = i + 1;
        }
        proof {
            let a = self.tokens();
            let b = other.tokens();
            a.unique_seq_to_set();
            b.unique_seq_to_set();
            assert(a.to_set().subset_of(b.to_set())) by {
                assert forall|x: Seq<char>| a.to_set().contains(x) implies b.to_set().contains(x) by {
                    let k = choose|k: int| 0 <= k < a.len() && a[k] == x;
                    assert(b.contains(a[k]));
                }
            }
            vstd::set_lib::lemma_subset_equality(a.to_set(), b.to_set());
        }
        true
    }
}

/// Adding a token makes the list have it.
pub proof fn law_add_then_has(st: (bool, Set<Seq<char>>), t: Seq<char>)
    requires
        is_token(t),
    ensures
        state_has(add_effect(st, t), t),
{
}

/// Removing a token makes the list lack it.
pub proof fn law_remove_then_lacks(st: (bool, Set<Seq<char>>), t: Seq<char>)
    requires
        is_token(t),
    ensures
        !state_has(remove_effect(st, t), t),
{
}

/// The tokens closed while scanning `s[p..]` up to its end, with `start`
/// the beginning of a token open at `p`.
pub open spec fn tokens_before_end(s: Seq<char>, p: int, start: Option<int>) -> Seq<Seq<char>>
    decreases s.len() - p,
{
    if p >= s.len() {
        Seq::empty()
    } else if is_list_separator(s[p]) {
        match start {
            Some(st) => seq![s.subrange(st, p)] + tokens_before_end(s, p + 1, None),
            None => tokens_before_end(s, p + 1, None),
        }
    } else {
        match start {
            Some(st) => tokens_before_end(s, p + 1, Some(st)),
            None => tokens_before_end(s, p + 1, Some(p)),
        }
    }
}

/// The beginning of the token still open at the end of `s`, scanning from
/// `p` with `start` open.
pub open spec fn open_at_end(s: Seq<char>, p: int, start: Option<int>) -> Option<int>
    decreases s.len() - p,
{
    if p >= s.len() {
        start
    } else if is_list_separator(s[p]) {
        open_at_end(s, p + 1, None)
    } else {
        match start {
            Some(st) => open_at_end(s, p + 1, Some(st)),
            None => open_at_end(s, p + 1, Some(p)),
        }
    }
}

/// Scanning `s + u` from inside `s` closes the tokens of `s` first, then
/// goes on at the end of `s` with the token still open there.
proof fn lemma_scan_split(s: Seq<char>, u: Seq<char>, p: int, start: Option<int>)
    requires
        0 <= p <= s.len(),
        start matches Some(st) ==> 0 <= st <= p,
    ensures
        list_tokens_from(s + u, p, start) == tokens_before_end(s, p, start) + list_tokens_from(
            s + u,
            s.len() as int,
            open_at_end(s, p, start),
        ),
        open_at_end(s, p, start) matches Some(st) ==> 0 <= st <= s.len(),
    decreases s.len() - p,
{
    let q = s + u;
    if p == s.len() {
        assert(tokens_before_end(s, p, start) + list_tokens_from(q, p, start) =~= list_tokens_from(q, p, start));
    } else {
        assert(q[p] == s[p]);
        if is_list_separator(s[p]) {
            lemma_scan_split(s, u, p + 1, None);
            match start {
                Some(st) => {
                    assert(q.subrange(st, p) =~= s.subrange(st, p));
                    assert(seq![s.subrange(st, p)] + tokens_before_end(s, p + 1, None) + list_tokens_from(
                        q,
                        s.len() as int,
                        open_at_end(s, p + 1, None),
                    ) =~= seq![s.subrange(st, p)] + (tokens_before_end(s, p + 1, None) + list_tokens_from(
                        q,
                        s.len() as int,
                        open_at_end(s, p + 1, None),
                    )));
                },
                None => {},
            }
        } else {
            match start {
                Some(st) => lemma_scan_split(s, u, p + 1, Some(st)),
                None => lemma_scan_split(s, u, p + 1, Some(p)),
            }
        }
    }
}

/// A run of non-separators that reaches the end is one token.
proof fn lemma_scan_last_token(q: Seq<char>, p: int, a: int)
    requires
        0 <= a <= p <= q.len(),
        forall|k: int| a <= k < q.len() ==> !is_list_separator(#[trigger] q[k]),
    ensures
        list_tokens_from(q, p, Some(a)) == seq![q.subrange(a, q.len() as int)],
    decreases q.len() - p,
{
    if p < q.len() {
        lemma_scan_last_token(q, p + 1, a);
    }
}

/// A token without separators is read as itself.
pub open spec fn plain_token(t: Seq<char>) -> bool {
    t.len() > 0 && forall|k: int| 0 <= k < t.len() ==> !is_list_separator(#[trigger] t[k])
}

/// Appending a space and a plain token to a text appends the token to the
/// tokens read from it.
proof fn lemma_tokens_append(s: Seq<char>, t: Seq<char>)
    requires
        plain_token(t),
    ensures
        list_tokens(s + (seq![' '] + t)) == list_tokens(s) + seq![t],
{
    let u = seq![' '] + t;
    let q = s + u;
    let n = s.len() as int;
    lemma_scan_split(s, u, 0, None);
    lemma_scan_split(s, Seq::empty(), 0, None);
    assert(s + Seq::<char>::empty() =~= s);
    let e = open_at_end(s, 0, None);
    assert(q[n] == ' ');
    assert forall|k: int| n + 1 <= k < q.len() implies !is_list_separator(#[trigger] q[k]) by {
        assert(q[k] == t[k - n - 1]);
    }
    lemma_scan_last_token(q, n + 2, n + 1);
    assert(!is_list_separator(q[n + 1]));
    assert(list_tokens_from(q, n + 1, None) == list_tokens_from(q, n + 2, Some(n + 1)));
    assert(q.subrange(n + 1, q.len() as int) =~= t);
    let pre = tokens_before_end(s, 0, None);
    match e {
        Some(st) => {
            assert(q.subrange(st, n) =~= s.subrange(st, n));
            assert(list_tokens_from(s, n, e) == seq![s.subrange(st, n)]);
            assert(pre + (seq![q.subrange(st, n)] + seq![t]) =~= pre + seq![s.subrange(st, n)] + seq![t]);
        },
        None => {
            assert(list_tokens_from(s, n, e) == Seq::<Seq<char>>::empty());
            assert(pre + Seq::<Seq<char>>::empty() =~= pre);
        },
    }
}

/// The tokens read from tokens joined by spaces are those tokens.
proof fn lemma_tokens_of_space_join(toks: Seq<Seq<char>>)
    requires
        forall|i: int| 0 <= i < toks.len() ==> plain_token(#[trigger] toks[i]),
    ensures
        list_tokens(space_join(toks)) == toks,
    decreases toks.len(),
{
    if toks.len() == 0 {
        assert(list_tokens(Seq::<char>::empty()) == Seq::<Seq<char>>::empty());
    } else if toks.len() == 1 {
        let t = toks[0];
        assert(plain_token(t));
        lemma_scan_last_token(t, 1, 0);
        assert(t.subrange(0, t.len() as int) =~= t);
        assert(list_tokens(t) == seq![t]);
        assert(toks =~= seq![t]);
    } else {
        let init = toks.drop_last();
        assert forall|i: int| 0 <= i < init.len() implies plain_token(#[trigger] init[i]) by {
            assert(init[i] == toks[i]);
        }
        lemma_tokens_of_space_join(init);
        assert(plain_token(toks.last()));
        lemma_tokens_append(space_join(init), toks.last());
        assert(space_join(init) + seq![' '] + toks.last() =~= space_join(init) + (seq![' '] + toks.last()));
        assert(init + seq![toks.last()] =~= toks);
    }
}

/// Each token with `-` before it.
pub open spec fn minus_tokens(toks: Seq<Seq<char>>) -> Seq<Seq<char>> {
    Seq::new(toks.len(), |i: int| seq!['-'] + toks[i])
}

/// The tokens read from `*` followed by ` -token` for each token are `*`
/// and each token with `-` before it.
proof fn lemma_tokens_of_excluded_join(toks: Seq<Seq<char>>)
    requires
        forall|i: int| 0 <= i < toks.len() ==> plain_token(#[trigger] toks[i]),
    ensures
        list_tokens(seq!['*'] + excluded_join(toks)) == seq![seq!['*']] + minus_tokens(toks),
    decreases toks.len(),
{
    if toks.len() == 0 {
        let s = seq!['*'];
        assert(seq!['*'] + excluded_join(toks) =~= s);
        lemma_scan_last_token(s, 1, 0);
        assert(s.subrange(0, 1) =~= s);
        assert(minus_tokens(toks) =~= Seq::<Seq<char>>::empty());
        assert(seq![s] + Seq::<Seq<char>>::empty() =~= seq![s]);
    } else {
        let init = toks.drop_last();
        let last = toks.last();
        assert forall|i: int| 0 <= i < init.len() implies plain_token(#[trigger] init[i]) by {
            assert(init[i] == toks[i]);
        }
        lemma_tokens_of_excluded_join(init);
        let m = seq!['-'] + last;
        assert(plain_token(last));
        assert forall|k: int| 0 <= k < m.len() implies !is_list_separator(#[trigger] m[k]) by {
            if k > 0 {
                assert(m[k] == last[k - 1]);
            }
        }
        lemma_tokens_append(seq!['*'] + excluded_join(init), m);
        assert(seq!['*'] + excluded_join(toks) =~= (seq!['*'] + excluded_join(init)) + (seq![' '] + m));
        assert(minus_tokens(toks) =~= minus_tokens(init).push(m));
        assert(seq![seq!['*']] + minus_tokens(init) + seq![m] =~= seq![seq!['*']] + minus_tokens(toks));
    }
}

proof fn lemma_apply_list_concat(st: (bool, Set<Seq<char>>), a: Seq<Seq<char>>, b: Seq<Seq<char>>)
    ensures
        apply_list(st, a + b) == apply_list(apply_list(st, a), b),
    decreases b.len(),
{
    if b.len() == 0 {
        assert(a + b =~= a);
    } else {
        lemma_apply_list_concat(st, a, b.drop_last());
        assert((a + b).drop_last() =~= a + b.drop_last());
        assert((a + b).last() == b.last());
    }
}

/// A token that a list holds as text: plain, a real token, not `*`, not
/// starting with `-`, and already in lowercase form.
pub open spec fn held_token(t: Seq<char>) -> bool {
    &&& plain_token(t)
    &&& is_token(t)
    &&& !is_wildcard_token(t)
    &&& t[0] != '-'
    &&& unicode_lowercase(t) == t
}

/// Reading the given tokens (or, with `minus`, each with `-` before it)
/// into a list in the given mode adds them to its set.
proof fn lemma_apply_held(mode: bool, set: Set<Seq<char>>, toks: Seq<Seq<char>>, minus: bool)
    requires
        forall|i: int| 0 <= i < toks.len() ==> held_token(#[trigger] toks[i]),
        minus == mode,
    ensures
        apply_list((mode, set), if minus { minus_tokens(toks) } else { toks }) == (mode, set + toks.to_set()),
    decreases toks.len(),
{
    let read = if minus { minus_tokens(toks) } else { toks };
    if toks.len() == 0 {
        assert(read.len() == 0);
        assert(set + toks.to_set() =~= set);
    } else {
        let init = toks.drop_last();
        let last = toks.last();
        assert forall|i: int| 0 <= i < init.len() implies held_token(#[trigger] init[i]) by {
            assert(init[i] == toks[i]);
        }
        lemma_apply_held(mode, set, init, minus);
        let read_init = if minus { minus_tokens(init) } else { init };
        assert(read.drop_last() =~= read_init);
        assert(held_token(last));
        if minus {
            assert(read.last() == seq!['-'] + last);
            assert((seq!['-'] + last).drop_first() =~= last);
        } else {
            assert(read.last() == last);
        }
        assert(set + toks.to_set() =~= (set + init.to_set()).insert(last)) by {
            assert forall|x: Seq<char>| #[trigger] toks.to_set().contains(x) <==> (init.to_set().contains(x)
                || x == last) by {
                if toks.contains(x) {
                    let i = choose|i: int| 0 <= i < toks.len() && toks[i] == x;
                    if i < toks.len() - 1 {
                        assert(init[i] == x);
                    }
                }
                if init.contains(x) {
                    let i = choose|i: int| 0 <= i < init.len() && init[i] == x;
                    assert(toks[i] == x);
                }
                if x == last {
                    assert(toks[toks.len() - 1] == x);
                }
            }
        }
    }
}

/// A token list read back from its text is the same list: the same mode
/// and the same tokens, for tokens in their held form (plain, lowercase,
/// not `*` and not starting with `-`).
pub proof fn law_token_list_text_reads_back(permissive: bool, toks: Seq<Seq<char>>)
    requires
        forall|i: int| 0 <= i < toks.len() ==> held_token(#[trigger] toks[i]),
    ensures
        apply_list(
            (false, Set::<Seq<char>>::empty()),
            list_tokens(if permissive { seq!['*'] + excluded_join(toks) } else { space_join(toks) }),
        ) == (permissive, toks.to_set()),
{
    assert forall|i: int| 0 <= i < toks.len() implies plain_token(#[trigger] toks[i]) by {
        assert(held_token(toks[i]));
    }
    let empty = Set::<Seq<char>>::empty();
    assert(empty + toks.to_set() =~= toks.to_set());
    if permissive {
        lemma_tokens_of_excluded_join(toks);
        let star = seq!['*'];
        lemma_apply_list_concat((false, empty), seq![star], minus_tokens(toks));
        assert(seq![star].drop_last().len() == 0);
        assert(apply_list((false, empty), seq![star].drop_last()) == (false, empty));
        assert(trim_start_chars(star) == star);
        assert(trim_end_chars(star) == star);
        assert(is_token(star));
        assert(apply_list((false, empty), seq![star]) == (true, empty));
        lemma_apply_held(true, empty, toks, true);
    } else {
        lemma_tokens_of_space_join(toks);
        lemma_apply_held(false, empty, toks, false);
    }
}

} // verus!
