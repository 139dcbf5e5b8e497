//! IRC formatting codes: stripping them from a line, and turning the
//! backslash escapes that configuration text uses into them.

use vstd::prelude::*;
use vstd::utf8::{decode_utf8, encode_utf8, valid_utf8};
use crate::text::{str_chars, string_from_utf8};

verus! {

/// A formatting code that stands alone: bold, italic, monospace, reverse,
/// strikethrough, underline and reset.
pub open spec fn is_format_code(b: u8) -> bool {
    b == 0x02 || b == 0x1D || b == 0x11 || b == 0x16 || b == 0x1E || b == 0x1F || b == 0x0F
}

/// An ASCII decimal digit.
pub open spec fn is_dec_digit(b: u8) -> bool {
    '0' as u8 <= b <= '9' as u8
}

/// An ASCII hex digit.
pub open spec fn is_hex_digit(b: u8) -> bool {
    is_dec_digit(b) || ('A' as u8 <= b <= 'F' as u8) || ('a' as u8 <= b <= 'f' as u8)
}

/// A byte that may follow a colour code as part of its argument: a comma
/// or a digit (a hex digit for a hex colour).
pub open spec fn is_color_arg(b: u8, hex: bool) -> bool {
    b == ',' as u8 || (if hex {
        is_hex_digit(b)
    } else {
        is_dec_digit(b)
    })
}

/// How many bytes from `from` on, at most `limit`, belong to a colour
/// argument.
pub open spec fn color_arg_len(b: Seq<u8>, from: int, limit: nat, hex: bool) -> nat
    decreases limit,
{
    if limit == 0 || from < 0 || from >= b.len() {
        0
    } else if is_color_arg(b[from], hex) {
        1 + color_arg_len(b, from + 1, (limit - 1) as nat, hex)
    } else {
        0
    }
}

/// How many bytes of `b` lie at or after `i`.
pub open spec fn bytes_left(b: Seq<u8>, i: int) -> nat {
    if 0 <= i < b.len() {
        (b.len() - i) as nat
    } else {
        0
    }
}

/// The bytes of `b[i..]` with formatting removed: standalone codes are
/// dropped, a colour code is dropped with up to five argument bytes after
/// it, and a hex colour code with up to thirteen.
pub open spec fn strip_from(b: Seq<u8>, i: int) -> Seq<u8>
    decreases bytes_left(b, i),
{
    if i < 0 || i >= b.len() {
        Seq::empty()
    } else if is_format_code(b[i]) {
        strip_from(b, i + 1)
    } else if b[i] == 0x03 {
        strip_from(b, i + 1 + color_arg_len(b, i + 1, 5, false))
    } else if b[i] == 0x04 {
        strip_from(b, i + 1 + color_arg_len(b, i + 1, 13, true))
    } else {
        seq![b[i]] + strip_from(b, i + 1)
    }
}

/// What a line becomes once its formatting is stripped: the remaining
/// bytes as text if they are valid UTF-8, else the line unchanged.
pub open spec fn spec_strip_color(line: Seq<char>) -> Seq<char> {
    let r = strip_from(encode_utf8(line), 0);
    if valid_utf8(r) {
        decode_utf8(r)
    } else {
        line
    }
}

fn is_color_arg_byte(c: u8, hex: bool) -> (r: bool)
    ensures
        r == is_color_arg(c, hex),
{
    if c == ',' as u8 {
        return true;
    }
    let dec = '0' as u8 <= c && c <= '9' as u8;
    if hex {
        dec || ('A' as u8 <= c && c <= 'F' as u8) || ('a' as u8 <= c && c <= 'f' as u8)
    } else {
        dec
    }
}

fn skip_color_arg(b: &[u8], from: usize, limit: usize, hex: bool) -> (r: usize)
    requires
        from <= b@.len(),
    ensures
        r == from + color_arg_len(b@, from as int, limit as nat, hex),
        r <= b@.len(),
{
    let mut i = from;
    let mut left = limit;
    while left > 0 && i < b.len() && is_color_arg_byte(b[i], hex)
        invariant
            from <= i <= b@.len(),
            left <= limit,
            i - from + left == limit,
            color_arg_len(b@, from as int, limit as nat, hex) == (i - from) + color_arg_len(
                b@,
                i as int,
                left as nat,
                hex,
            ),
        decreases left,
    {
        i = i + 1;
        left = left - 1;
    }
    i
}

fn strip_bytes(b: &[u8]) -> (r: Vec<u8>)
    ensures
        r@ == strip_from(b@, 0),
{
    let mut result: Vec<u8> = Vec::new();
    let mut idx: usize = 0;
    while idx < b.len()
        invariant
            idx <= b@.len(),
            strip_from(b@, 0) == result@ + strip_from(b@, idx as int),
        decreases b.len() - idx,
    {
        let c = b[idx];
        if c == 0x02 || c == 0x1D || c == 0x11 || c == 0x16 || c == 0x1E || c == 0x1F || c == 0x0F {
            idx = idx + 1;
        } else if c == 0x03 {
            idx = skip_color_arg(b, idx + 1, 5, false);
        } else if c == 0x04 {
            idx = skip_color_arg(b, idx + 1, 13, true);
        } else {
            proof {
                assert(result@.push(c) + strip_from(b@, idx + 1) =~= result@ + (seq![c]
                    + strip_from(b@, idx + 1)));
            }
            result.push(c);
            idx = idx + 1;
        }
    }
    proof {
        assert(result@ + Seq::<u8>::empty() =~= result@);
    }
    result
}

/// Strips IRC colour codes and formatting from a line.
pub fn strip_color(line: &mut String)
    ensures
        final(line)@ == spec_strip_color(old(line)@),
{
    let result = strip_bytes(line.as_str().as_bytes());
    match string_from_utf8(result) {
        Some(s) => {
            *line = s;
        },
        None => {},
    }
}

/// A byte that stripping removes wherever it stands.
pub open spec fn is_strip_code(b: u8) -> bool {
    is_format_code(b) || b == 0x03 || b == 0x04
}

proof fn lemma_strip_leaves_no_code(b: Seq<u8>, i: int)
    ensures
        forall|k: int| 0 <= k < strip_from(b, i).len() ==> !is_strip_code(#[trigger] strip_from(b, i)[k]),
    decreases bytes_left(b, i),
{
    if 0 <= i < b.len() {
        if is_format_code(b[i]) {
            lemma_strip_leaves_no_code(b, i + 1);
            assert(strip_from(b, i) == strip_from(b, i + 1));
        } else if b[i] == 0x03 {
            let j = i + 1 + color_arg_len(b, i + 1, 5, false);
            lemma_strip_leaves_no_code(b, j);
            assert(strip_from(b, i) == strip_from(b, j));
        } else if b[i] == 0x04 {
            let j = i + 1 + color_arg_len(b, i + 1, 13, true);
            lemma_strip_leaves_no_code(b, j);
            assert(strip_from(b, i) == strip_from(b, j));
        } else {
            lemma_strip_leaves_no_code(b, i + 1);
            let rest = strip_from(b, i + 1);
            let whole = strip_from(b, i);
            assert(whole == seq![b[i]] + rest);
            assert(!is_strip_code(b[i]));
            assert forall|k: int| 0 <= k < whole.len() implies !is_strip_code(#[trigger] whole[k]) by {
                if k > 0 {
                    assert(whole[k] == rest[k - 1]);
                } else {
                    assert(whole[0] == b[i]);
                }
            }
        }
    }
}

proof fn lemma_strip_clean_is_identity(b: Seq<u8>, i: int)
    requires
        0 <= i <= b.len(),
        forall|k: int| i <= k < b.len() ==> !is_strip_code(#[trigger] b[k]),
    ensures
        strip_from(b, i) == b.skip(i),
    decreases bytes_left(b, i),
{
    if i < b.len() {
        assert(!is_strip_code(b[i]));
        lemma_strip_clean_is_identity(b, i + 1);
        assert(seq![b[i]] + b.skip(i + 1) =~= b.skip(i));
    } else {
        assert(b.skip(i) =~= Seq::<u8>::empty());
    }
}

/// Stripping the formatting of a line a second time changes nothing.
pub proof fn law_strip_color_idempotent(line: Seq<char>)
    ensures
        spec_strip_color(spec_strip_color(line)) == spec_strip_color(line),
{
    let r = strip_from(encode_utf8(line), 0);
    if valid_utf8(r) {
        let y = decode_utf8(r);
        vstd::utf8::decode_utf8_encode_utf8(r);
        assert(encode_utf8(y) == r);
        lemma_strip_leaves_no_code(encode_utf8(line), 0);
        lemma_strip_clean_is_identity(r, 0);
        assert(r.skip(0) =~= r);
    }
}

/// The formatting code that a backslash escape stands for: `\\`, `\{` and
/// `\}` for the character itself, and `b`, `c`, `h`, `i`, `m`, `r`, `s`,
/// `u`, `x` for bold, colour, hex colour, italic, monospace, reverse,
/// strikethrough, underline and reset.
pub open spec fn escape_code(c: u8) -> Option<u8> {
    if c == '\\' as u8 || c == '{' as u8 || c == '}' as u8 {
        Some(c)
    } else if c == 'b' as u8 {
        Some(0x02u8)
    } else if c == 'c' as u8 {
        Some(0x03u8)
    } else if c == 'h' as u8 {
        Some(0x04u8)
    } else if c == 'i' as u8 {
        Some(0x1Du8)
    } else if c == 'm' as u8 {
        Some(0x11u8)
    } else if c == 'r' as u8 {
        Some(0x16u8)
    } else if c == 's' as u8 {
        Some(0x1Eu8)
    } else if c == 'u' as u8 {
        Some(0x1Fu8)
    } else if c == 'x' as u8 {
        Some(0x0Fu8)
    } else {
        None
    }
}

fn escape_code_of(c: u8) -> (r: Option<u8>)
    ensures
        r == escape_code(c),
{
    if c == '\\' as u8 || c == '{' as u8 || c == '}' as u8 {
        Some(c)
    } else if c == 'b' as u8 {
        Some(0x02u8)
    } else if c == 'c' as u8 {
        Some(0x03u8)
    } else if c == 'h' as u8 {
        Some(0x04u8)
    } else if c == 'i' as u8 {
        Some(0x1Du8)
    } else if c == 'm' as u8 {
        Some(0x11u8)
    } else if c == 'r' as u8 {
        Some(0x16u8)
    } else if c == 's' as u8 {
        Some(0x1Eu8)
    } else if c == 'u' as u8 {
        Some(0x1Fu8)
    } else if c == 'x' as u8 {
        Some(0x0Fu8)
    } else {
        None
    }
}

/// Whether the bytes spell the given ASCII word.
pub open spec fn spells(name: Seq<u8>, word: Seq<char>) -> bool {
    &&& name.len() == word.len()
    &&& forall|i: int| 0 <= i < name.len() ==> #[trigger] word[i] == name[i] as char
}

fn spells_of(name: &[u8], word: &str) -> (r: bool)
    ensures
        r == spells(name@, word@),
{
    let w = str_chars(word);
    if name.len() != w.len() {
        return false;
    }
    let mut i: usize = 0;
    while i < name.len()
        invariant
            w@ == word@,
            name@.len() == w@.len(),
            i <= name@.len(),
            forall|j: int| 0 <= j < i ==> #[trigger] w@[j] == name@[j] as char,
        decreases name.len() - i,
    {
        if name[i] as char != w[i] {
            return false;
        }
        i = i + 1;
    }
    true
}

/// The colour number that a colour name stands for; 99, the default
/// colour, for any other name.
pub open spec fn color_code(name: Seq<u8>) -> u8 {
    if spells(name, "white"@) {
        0
    } else if spells(name, "black"@) {
        1
    } else if spells(name, "blue"@) {
        2
    } else if spells(name, "green"@) {
        3
    } else if spells(name, "red"@) {
        4
    } else if spells(name, "brown"@) {
        5
    } else if spells(name, "magenta"@) {
        6
    } else if spells(name, "orange"@) {
        7
    } else if spells(name, "yellow"@) {
        8
    } else if spells(name, "light green"@) {
        9
    } else if spells(name, "cyan"@) {
        10
    } else if spells(name, "light cyan"@) {
        11
    } else if spells(name, "light blue"@) {
        12
    } else if spells(name, "pink"@) {
        13
    } else if spells(name, "gray"@) {
        14
    } else if spells(name, "grey"@) {
        14
    } else if spells(name, "light gray"@) {
        15
    } else if spells(name, "light grey"@) {
        15
    } else if spells(name, "default"@) {
        99
    } else {
        99
    }
}

proof fn lemma_not_spells(name: Seq<u8>, w1: Seq<char>, w2: Seq<char>, i: int)
    requires
        spells(name, w1),
        0 <= i < w1.len(),
        i < w2.len(),
        w1[i] != w2[i],
    ensures
        !spells(name, w2),
{
    assert(w1[i] == name[i] as char);
}

/// The colour names stand for the standard mIRC colour numbers: white 0,
/// black 1, blue 2, green 3, red 4, brown 5, magenta 6, orange 7, yellow
/// 8, light green 9, cyan 10, light cyan 11, light blue 12, pink 13, gray
/// (or grey) 14, light gray (or light grey) 15; and each of these numbers
/// comes from its own name alone, so distinct names, but for the two
/// spellings of gray, get distinct numbers.
pub proof fn law_color_names_are_mirc_numbers()
    ensures
        forall|name: Seq<u8>| spells(name, "white"@) ==> #[trigger] color_code(name) == 0,
        forall|name: Seq<u8>| spells(name, "black"@) ==> #[trigger] color_code(name) == 1,
        forall|name: Seq<u8>| spells(name, "blue"@) ==> #[trigger] color_code(name) == 2,
        forall|name: Seq<u8>| spells(name, "green"@) ==> #[trigger] color_code(name) == 3,
        forall|name: Seq<u8>| spells(name, "red"@) ==> #[trigger] color_code(name) == 4,
        forall|name: Seq<u8>| spells(name, "brown"@) ==> #[trigger] color_code(name) == 5,
        forall|name: Seq<u8>| spells(name, "magenta"@) ==> #[trigger] color_code(name) == 6,
        forall|name: Seq<u8>| spells(name, "orange"@) ==> #[trigger] color_code(name) == 7,
        forall|name: Seq<u8>| spells(name, "yellow"@) ==> #[trigger] color_code(name) == 8,
        forall|name: Seq<u8>| spells(name, "light green"@) ==> #[trigger] color_code(name) == 9,
        forall|name: Seq<u8>| spells(name, "cyan"@) ==> #[trigger] color_code(name) == 10,
        forall|name: Seq<u8>| spells(name, "light cyan"@) ==> #[trigger] color_code(name) == 11,
        forall|name: Seq<u8>| spells(name, "light blue"@) ==> #[trigger] color_code(name) == 12,
        forall|name: Seq<u8>| spells(name, "pink"@) ==> #[trigger] color_code(name) == 13,
        forall|name: Seq<u8>| spells(name, "gray"@) ==> #[trigger] color_code(name) == 14,
        forall|name: Seq<u8>| spells(name, "grey"@) ==> #[trigger] color_code(name) == 14,
        forall|name: Seq<u8>| spells(name, "light gray"@) ==> #[trigger] color_code(name) == 15,
        forall|name: Seq<u8>| spells(name, "light grey"@) ==> #[trigger] color_code(name) == 15,
        forall|name: Seq<u8>| #[trigger] color_code(name) == 0 ==> spells(name, "white"@),
        forall|name: Seq<u8>| #[trigger] color_code(name) == 1 ==> spells(name, "black"@),
        forall|name: Seq<u8>| #[trigger] color_code(name) == 2 ==> spells(name, "blue"@),
        forall|name: Seq<u8>| #[trigger] color_code(name) == 3 ==> spells(name, "green"@),
        forall|name: Seq<u8>| #[trigger] color_code(name) == 4 ==> spells(name, "red"@),
        forall|name: Seq<u8>| #[trigger] color_code(name) == 5 ==> spells(name, "brown"@),
        forall|name: Seq<u8>| #[trigger] color_code(name) == 6 ==> spells(name, "magenta"@),
        forall|name: Seq<u8>| #[trigger] color_code(name) == 7 ==> spells(name, "orange"@),
        forall|name: Seq<u8>| #[trigger] color_code(name) == 8 ==> spells(name, "yellow"@),
        forall|name: Seq<u8>| #[trigger] color_code(name) == 9 ==> spells(name, "light green"@),
        forall|name: Seq<u8>| #[trigger] color_code(name) == 10 ==> spells(name, "cyan"@),
        forall|name: Seq<u8>| #[trigger] color_code(name) == 11 ==> spells(name, "light cyan"@),
        forall|name: Seq<u8>| #[trigger] color_code(name) == 12 ==> spells(name, "light blue"@),
        forall|name: Seq<u8>| #[trigger] color_code(name) == 13 ==> spells(name, "pink"@),
        forall|name: Seq<u8>| #[trigger] color_code(name) == 14 ==> spells(name, "gray"@) || spells(name, "grey"@),
        forall|name: Seq<u8>| #[trigger] color_code(name) == 15 ==> spells(name, "light gray"@) || spells(name, "light grey"@),
{
    reveal_strlit("white");
    reveal_strlit("black");
    reveal_strlit("blue");
    reveal_strlit("green");
    reveal_strlit("red");
    reveal_strlit("brown");
    reveal_strlit("magenta");
    reveal_strlit("orange");
    reveal_strlit("yellow");
    reveal_strlit("light green");
    reveal_strlit("cyan");
    reveal_strlit("light cyan");
    reveal_strlit("light blue");
    reveal_strlit("pink");
    reveal_strlit("gray");
    reveal_strlit("grey");
    reveal_strlit("light gray");
    reveal_strlit("light grey");
    assert forall|name: Seq<u8>| spells(name, "white"@) implies #[trigger] color_code(name) == 0 by {

    }
    assert forall|name: Seq<u8>| spells(name, "black"@) implies #[trigger] color_code(name) == 1 by {
            lemma_not_spells(name, "black"@, "white"@, 0);
    }
    assert forall|name: Seq<u8>| spells(name, "blue"@) implies #[trigger] color_code(name) == 2 by {

    }
    assert forall|name: Seq<u8>| spells(name, "green"@) implies #[trigger] color_code(name) == 3 by {
            lemma_not_spells(name, "green"@, "white"@, 0);
            lemma_not_spells(name, "green"@, "black"@, 0);
    }
    assert forall|name: Seq<u8>| spells(name, "red"@) implies #[trigger] color_code(name) == 4 by {

    }
    assert forall|name: Seq<u8>| spells(name, "brown"@) implies #[trigger] color_code(name) == 5 by {
            lemma_not_spells(name, "brown"@, "white"@, 0);
            lemma_not_spells(name, "brown"@, "black"@, 1);
            lemma_not_spells(name, "brown"@, "green"@, 0);
    }
    assert forall|name: Seq<u8>| spells(name, "magenta"@) implies #[trigger] color_code(name) == 6 by {

    }
    assert forall|name: Seq<u8>| spells(name, "orange"@) implies #[trigger] color_code(name) == 7 by {

    }
    assert forall|name: Seq<u8>| spells(name, "yellow"@) implies #[trigger] color_code(name) == 8 by {
            lemma_not_spells(name, "yellow"@, "orange"@, 0);
    }
    assert forall|name: Seq<u8>| spells(name, "light green"@) implies #[trigger] color_code(name) == 9 by {

    }
    assert forall|name: Seq<u8>| spells(name, "cyan"@) implies #[trigger] color_code(name) == 10 by {
            lemma_not_spells(name, "cyan"@, "blue"@, 0);
    }
    assert forall|name: Seq<u8>| spells(name, "light cyan"@) implies #[trigger] color_code(name) == 11 by {

    }
    assert forall|name: Seq<u8>| spells(name, "light blue"@) implies #[trigger] color_code(name) == 12 by {
            lemma_not_spells(name, "light blue"@, "light cyan"@, 6);
    }
    assert forall|name: Seq<u8>| spells(name, "pink"@) implies #[trigger] color_code(name) == 13 by {
            lemma_not_spells(name, "pink"@, "blue"@, 0);
            lemma_not_spells(name, "pink"@, "cyan"@, 0);
    }
    assert forall|name: Seq<u8>| spells(name, "gray"@) implies #[trigger] color_code(name) == 14 by {
            lemma_not_spells(name, "gray"@, "blue"@, 0);
            lemma_not_spells(name, "gray"@, "cyan"@, 0);
            lemma_not_spells(name, "gray"@, "pink"@, 0);
    }
    assert forall|name: Seq<u8>| spells(name, "grey"@) implies #[trigger] color_code(name) == 14 by {
            lemma_not_spells(name, "grey"@, "blue"@, 0);
            lemma_not_spells(name, "grey"@, "cyan"@, 0);
            lemma_not_spells(name, "grey"@, "pink"@, 0);
            lemma_not_spells(name, "grey"@, "gray"@, 2);
    }
    assert forall|name: Seq<u8>| spells(name, "light gray"@) implies #[trigger] color_code(name) == 15 by {
            lemma_not_spells(name, "light gray"@, "light cyan"@, 6);
            lemma_not_spells(name, "light gray"@, "light blue"@, 6);
    }
    assert forall|name: Seq<u8>| spells(name, "light grey"@) implies #[trigger] color_code(name) == 15 by {
            lemma_not_spells(name, "light grey"@, "light cyan"@, 6);
            lemma_not_spells(name, "light grey"@, "light blue"@, 6);
            lemma_not_spells(name, "light grey"@, "light gray"@, 8);
    }
}

fn color_code_of(name: &[u8]) -> (r: u8)
    ensures
        r == color_code(name@),
{
    proof {
        reveal_strlit("white");
        reveal_strlit("black");
        reveal_strlit("blue");
        reveal_strlit("green");
        reveal_strlit("red");
        reveal_strlit("brown");
        reveal_strlit("magenta");
        reveal_strlit("orange");
        reveal_strlit("yellow");
        reveal_strlit("light green");
        reveal_strlit("cyan");
        reveal_strlit("light cyan");
        reveal_strlit("light blue");
        reveal_strlit("pink");
        reveal_strlit("gray");
        reveal_strlit("grey");
        reveal_strlit("light gray");
        reveal_strlit("light grey");
        reveal_strlit("default");
    }
    if spells_of(name, "white") {
        return 0;
    }
    if spells_of(name, "black") {
        return 1;
    }
    if spells_of(name, "blue") {
        return 2;
    }
    if spells_of(name, "green") {
        return 3;
    }
    if spells_of(name, "red") {
        return 4;
    }
    if spells_of(name, "brown") {
        return 5;
    }
    if spells_of(name, "magenta") {
        return 6;
    }
    if spells_of(name, "orange") {
        return 7;
    }
    if spells_of(name, "yellow") {
        return 8;
    }
    if spells_of(name, "light green") {
        return 9;
    }
    if spells_of(name, "cyan") {
        return 10;
    }
    if spells_of(name, "light cyan") {
        return 11;
    }
    if spells_of(name, "light blue") {
        return 12;
    }
    if spells_of(name, "pink") {
        return 13;
    }
    if spells_of(name, "gray") {
        return 14;
    }
    if spells_of(name, "grey") {
        return 14;
    }
    if spells_of(name, "light gray") {
        return 15;
    }
    if spells_of(name, "light grey") {
        return 15;
    }
    if spells_of(name, "default") {
        return 99;
    }
    99
}

/// The decimal representation of `n` as ASCII bytes.
pub open spec fn decimal_bytes(n: nat) -> Seq<u8>
    decreases n,
{
    if n < 10 {
        seq![('0' as u8 + n) as u8]
    } else {
        decimal_bytes(n / 10) + seq![('0' as u8 + n % 10) as u8]
    }
}

fn push_color_number(r: &mut Vec<u8>, n: u8)
    requires
        n < 100,
    ensures
        final(r)@ == old(r)@ + decimal_bytes(n as nat),
{
    if n < 10 {
        r.push('0' as u8 + n);
    } else {
        r.push('0' as u8 + n / 10);
        r.push('0' as u8 + n % 10);
        proof {
            assert(decimal_bytes((n / 10) as nat) == seq![('0' as u8 + n / 10) as u8]);
        }
    }
    proof {
        assert(final(r)@ =~= old(r)@ + decimal_bytes(n as nat));
    }
}

/// The offset from `from` of the first byte that ends a colour value: a
/// `}`, or also a `,` unless `close_only`.
pub open spec fn find_end(b: Seq<u8>, from: int, close_only: bool) -> Option<nat>
    decreases b.len() - from,
{
    if from < 0 || from >= b.len() {
        None
    } else if b[from] == '}' as u8 || (!close_only && b[from] == ',' as u8) {
        Some(0)
    } else {
        match find_end(b, from + 1, close_only) {
            Some(k) => Some(k + 1),
            None => None,
        }
    }
}

/// The output of escape processing, having produced `out` from the bytes
/// before `idx`. An escape `\c{fg}` or `\c{fg,bg}` gives the colour code
/// followed by the colour numbers of the names; a colour value that is
/// never closed ends processing, dropping that escape and all that follows
/// it and keeping the output made before it; a stray backslash at the end
/// and unknown escapes are dropped.
pub open spec fn process_from(b: Seq<u8>, idx: int, out: Seq<u8>) -> Seq<u8>
    decreases bytes_left(b, idx),
{
    if idx < 0 || idx >= b.len() {
        out
    } else if b[idx] != '\\' as u8 {
        process_from(b, idx + 1, out.push(b[idx]))
    } else if idx + 1 >= b.len() {
        out
    } else {
        match escape_code(b[idx + 1]) {
            None => process_from(b, idx + 2, out),
            Some(code) => {
                let out1 = out.push(code);
                if b[idx + 1] != 'c' as u8 || idx + 2 >= b.len() || b[idx + 2] != '{' as u8 {
                    process_from(b, idx + 2, out1)
                } else {
                    let fs = idx + 3;
                    match find_end(b, fs, false) {
                        None => out,
                        Some(k) => {
                            let fe = fs + k;
                            let fg = decimal_bytes(color_code(b.subrange(fs, fe)) as nat);
                            if b[fe] == ',' as u8 {
                                match find_end(b, fe + 1, true) {
                                    None => out,
                                    Some(k2) => {
                                        let be = fe + 1 + k2;
                                        let bg = decimal_bytes(
                                            color_code(b.subrange(fe + 1, be)) as nat,
                                        );
                                        process_from(b, be + 1, out1 + fg + seq![',' as u8] + bg)
                                    },
                                }
                            } else {
                                process_from(b, fe + 1, out1 + fg)
                            }
                        },
                    }
                }
            },
        }
    }
}

/// What a line becomes once its escapes are processed: the output bytes
/// as text if they are valid UTF-8, else the line unchanged.
pub open spec fn spec_process_colors(line: Seq<char>) -> Seq<char> {
    let r = process_from(encode_utf8(line), 0, Seq::empty());
    if valid_utf8(r) {
        decode_utf8(r)
    } else {
        line
    }
}

fn find_end_of(b: &[u8], from: usize, close_only: bool) -> (r: Option<usize>)
    requires
        from <= b@.len(),
    ensures
        match find_end(b@, from as int, close_only) {
            Some(k) => r == Some((from + k) as usize) && from + k < b@.len(),
            None => r is None,
        },
{
    let mut i = from;
    while i < b.len()
        invariant
            from <= i <= b@.len(),
            find_end(b@, from as int, close_only) == match find_end(b@, i as int, close_only) {
                Some(k) => Some((k + (i - from)) as nat),
                None => None::<nat>,
            },
        decreases b.len() - i,
    {
        let c = b[i];
        if c == '}' as u8 || (!close_only && c == ',' as u8) {
            return Some(i);
        }
        i = i + 1;
    }
    None
}

fn process_bytes(b: &[u8]) -> (r: Vec<u8>)
    ensures
        r@ == process_from(b@, 0, Seq::empty()),
{
    let mut result: Vec<u8> = Vec::new();
    let mut idx: usize = 0;
    while idx < b.len()
        invariant
            idx <= b@.len(),
            process_from(b@, 0, Seq::empty()) == process_from(b@, idx as int, result@),
        decreases b.len() - idx,
    {
        let ghost r0 = result@;
        let ghost i0 = idx as int;
        if b[idx] != '\\' as u8 {
            result.push(b[idx]);
            idx = idx + 1;
            continue;
        }
        let kept = result.len();
        idx = idx + 1;
        if idx >= b.len() {
            continue;
        }
        let chr = b[idx];
        match escape_code_of(chr) {
            None => {
                idx = idx + 1;
            },
            Some(code) => {
                result.push(code);
                idx = idx + 1;
                if chr != 'c' as u8 || idx >= b.len() || b[idx] != '{' as u8 {
                    continue;
                }
                let fg_start = idx + 1;
                let fgend = match find_end_of(b, fg_start, false) {
                    Some(p) => p,
                    None => {
                        result.truncate(kept);
                        proof {
                            assert(result@ =~= r0);
                        }
                        return result;
                    },
                };
                let fg = color_code_of(vstd::slice::slice_subrange(b, fg_start, fgend));
                let ghost fgb = decimal_bytes(fg as nat);
                if b[fgend] == ',' as u8 {
                    let bgend = match find_end_of(b, fgend + 1, true) {
                        Some(p) => p,
                        None => {
                            result.truncate(kept);
                            proof {
                                assert(result@ =~= r0);
                            }
                            return result;
                        },
                    };
                    let bg = color_code_of(vstd::slice::slice_subrange(b, fgend + 1, bgend));
                    let ghost bgb = decimal_bytes(bg as nat);
                    push_color_number(&mut result, fg);
                    result.push(',' as u8);
                    push_color_number(&mut result, bg);
                    proof {
                        assert(result@ =~= r0.push(code) + fgb + seq![',' as u8] + bgb);
                        assert(process_from(b@, i0, r0) == process_from(
                            b@,
                            bgend + 1,
                            r0.push(code) + fgb + seq![',' as u8] + bgb,
                        ));
                    }
                    idx = bgend + 1;
                } else {
                    push_color_number(&mut result, fg);
                    proof {
                        assert(process_from(b@, i0, r0) == process_from(
                            b@,
                            fgend + 1,
                            r0.push(code) + fgb,
                        ));
                    }
                    idx = fgend + 1;
                }
            },
        }
    }
    result
}

/// Turns the backslash escapes of a line into IRC formatting codes.
pub fn process_colors(line: &mut String)
    ensures
        final(line)@ == spec_process_colors(old(line)@),
{
    let result = process_bytes(line.as_str().as_bytes());
    match string_from_utf8(result) {
        Some(s) => {
            *line = s;
        },
        None => {},
    }
}

} // verus!
