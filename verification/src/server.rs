//! Server identity: the server ID derived from the server's name and
//! description, and the generator of unique user IDs.

use vstd::prelude::*;
use vstd::string::StringSliceAdditionalSpecFns;
use vstd::utf8::encode_utf8;
use crate::text::push_char;

verus! {

/// The hash of the bytes before `n`: each byte is added to five times the
/// hash so far, modulo 2^32.
pub open spec fn sid_hash(b: Seq<u8>, n: int) -> u32
    decreases n,
{
    if n <= 0 {
        0
    } else {
        ((5 * sid_hash(b, n - 1) + b[n - 1]) % 0x1_0000_0000) as u32
    }
}

/// The ASCII digit char for `d`.
pub open spec fn sid_digit(d: int) -> char {
    (('0' as int) + d) as char
}

/// The server ID for a server name and description: the hash of their
/// bytes, one after the other, modulo 1000, written as three decimal
/// digits with leading zeros.
pub open spec fn spec_generate_sid(name: Seq<u8>, desc: Seq<u8>) -> Seq<char> {
    let all = name + desc;
    let m = (sid_hash(all, all.len() as int) % 1000) as int;
    seq![sid_digit(m / 100), sid_digit((m / 10) % 10), sid_digit(m % 10)]
}

fn digit_char_of(d: u32) -> (c: char)
    requires
        d < 10,
    ensures
        c == sid_digit(d as int),
{
    ((48 + d) as u8) as char
}

/// Generates a server ID from the server's name and description.
pub fn generate_sid(servername: &str, serverdesc: &str) -> (r: String)
    ensures
        r@ == spec_generate_sid(servername.spec_bytes(), serverdesc.spec_bytes()),
{
    let a = servername.as_bytes();
    let b = serverdesc.as_bytes();
    let ghost all = a@ + b@;
    let mut sid: u32 = 0;
    let mut i: usize = 0;
    while i < a.len()
        invariant
            all == a@ + b@,
            i <= a@.len(),
            sid == sid_hash(all, i as int),
        decreases a.len() - i,
    {
        proof {
            assert(all[i as int] == a@[i as int]);
        }
        sid = 5u32.wrapping_mul(sid).wrapping_add(a[i] as u32);
        proof {
            assert(sid == ((5 * sid_hash(all, i as int) + all[i as int]) % 0x1_0000_0000) as u32)
                by (nonlinear_arith)
                requires
                    sid == ((((5 * sid_hash(all, i as int)) % 0x1_0000_0000) + a@[i as int])
                        % 0x1_0000_0000) as u32,
                    all[i as int] == a@[i as int],
            ;
        }
        i = i + 1;
    }
    let mut j: usize = 0;
    while j < b.len()
        invariant
            all == a@ + b@,
            j <= b@.len(),
            sid == sid_hash(all, a@.len() + j),
        decreases b.len() - j,
    {
        let ghost k = a@.len() + j;
        proof {
            assert(all[k] == b@[j as int]);
        }
        sid = 5u32.wrapping_mul(sid).wrapping_add(b[j] as u32);
        proof {
            assert(sid == ((5 * sid_hash(all, k) + all[k]) % 0x1_0000_0000) as u32)
                by (nonlinear_arith)
                requires
                    sid == ((((5 * sid_hash(all, k)) % 0x1_0000_0000) + b@[j as int])
                        % 0x1_0000_0000) as u32,
                    all[k] == b@[j as int],
            ;
        }
        j = j + 1;
    }
    let m = sid % 1000;
    let mut s = String::new();
    push_char(&mut s, digit_char_of(m / 100));
    push_char(&mut s, digit_char_of((m / 10) % 10));
    push_char(&mut s, digit_char_of(m % 10));
    proof {
        assert(all.len() == a@.len() + b@.len());
        assert(s@ =~= spec_generate_sid(servername.spec_bytes(), serverdesc.spec_bytes()));
    }
    s
}

/// A byte that may stand in the generated part of a user ID: an
/// uppercase letter or a digit.
pub open spec fn is_uid_digit(b: u8) -> bool {
    ('A' as u8 <= b <= 'Z' as u8) || ('0' as u8 <= b <= '9' as u8)
}

/// The value of a user ID digit: the letters A to Z count 0 to 25 and the
/// digits 0 to 9 count 26 to 35.
pub open spec fn uid_digit_value(b: u8) -> int {
    if 'A' as u8 <= b <= 'Z' as u8 {
        b - ('A' as u8)
    } else {
        b - ('0' as u8) + 26
    }
}

/// The digit that follows `b`: the next letter, `0` after `Z`, the next
/// digit, and `A` after `9`.
pub open spec fn next_uid_digit(b: u8) -> u8 {
    if b == 'Z' as u8 {
        '0' as u8
    } else if b == '9' as u8 {
        'A' as u8
    } else {
        (b + 1) as u8
    }
}

/// The digit string that follows `s`: the last digit advances, and a `9`
/// turns into `A` and carries into the digit before it; a carry out of the
/// first digit is dropped.
pub open spec fn uid_successor(s: Seq<u8>) -> Seq<u8>
    decreases s.len(),
{
    if s.len() == 0 {
        s
    } else if s.last() == '9' as u8 {
        uid_successor(s.drop_last()).push('A' as u8)
    } else {
        s.drop_last().push(next_uid_digit(s.last()))
    }
}

/// The number that a digit string stands for, in base 36, most significant
/// digit first.
pub open spec fn uid_value(s: Seq<u8>) -> int
    decreases s.len(),
{
    if s.len() == 0 {
        0
    } else {
        uid_value(s.drop_last()) * 36 + uid_digit_value(s.last())
    }
}

/// 36 to the power `n`.
pub open spec fn pow36(n: nat) -> int
    decreases n,
{
    if n == 0 {
        1
    } else {
        36 * pow36((n - 1) as nat)
    }
}

/// Every byte of `s` is a user ID digit.
pub open spec fn all_uid_digits(s: Seq<u8>) -> bool {
    forall|i: int| 0 <= i < s.len() ==> is_uid_digit(#[trigger] s[i])
}

proof fn lemma_uid_value_bounds(s: Seq<u8>)
    requires
        all_uid_digits(s),
    ensures
        0 <= uid_value(s) < pow36(s.len()),
    decreases s.len(),
{
    if s.len() > 0 {
        assert(all_uid_digits(s.drop_last()));
        assert(is_uid_digit(s[s.len() - 1]));
        lemma_uid_value_bounds(s.drop_last());
        let v = uid_value(s.drop_last());
        let p = pow36((s.len() - 1) as nat);
        let d = uid_digit_value(s.last());
        assert(0 <= d < 36);
        assert(v * 36 + d < p * 36) by (nonlinear_arith)
            requires
                0 <= v < p,
                0 <= d < 36,
        ;
        assert(v * 36 + d >= 0) by (nonlinear_arith)
            requires
                0 <= v,
                0 <= d,
        ;
    }
}

/// The generated part of user IDs counts up by one in base 36 with each
/// step and wraps around to all `A`s after all `9`s: the successor of a
/// digit string stands for the next number modulo 36 to the power of its
/// length, and is again a digit string of the same length.
pub proof fn law_uid_successor_counts(s: Seq<u8>)
    requires
        all_uid_digits(s),
    ensures
        uid_successor(s).len() == s.len(),
        all_uid_digits(uid_successor(s)),
        uid_value(uid_successor(s)) == (uid_value(s) + 1) % pow36(s.len()),
    decreases s.len(),
{
    if s.len() > 0 {
        let init = s.drop_last();
        let last = s.last();
        assert(all_uid_digits(init));
        assert(is_uid_digit(s[s.len() - 1]));
        lemma_uid_value_bounds(init);
        let p = pow36(init.len());
        let v = uid_value(init);
        if last == '9' as u8 {
            law_uid_successor_counts(init);
            let t = uid_successor(init);
            assert(uid_successor(s) == t.push('A' as u8));
            assert(t.push('A' as u8).drop_last() =~= t);
            assert(all_uid_digits(t.push('A' as u8))) by {
                assert forall|i: int| 0 <= i < t.len() + 1 implies is_uid_digit(
                    #[trigger] t.push('A' as u8)[i],
                ) by {
                    if i < t.len() {
                        assert(t.push('A' as u8)[i] == t[i]);
                    }
                }
            }
            assert(uid_value(s) + 1 == (v + 1) * 36);
            assert(uid_value(uid_successor(s)) == uid_value(t) * 36);
            if v + 1 < p {
                assert(uid_value(t) == v + 1) by {
                    vstd::arithmetic::div_mod::lemma_small_mod((v + 1) as nat, p as nat);
                }
                assert((v + 1) * 36 < p * 36) by (nonlinear_arith)
                    requires
                        v + 1 < p,
                ;
                assert((v + 1) * 36 >= 0) by (nonlinear_arith)
                    requires
                        v + 1 >= 0,
                ;
                vstd::arithmetic::div_mod::lemma_small_mod(((v + 1) * 36) as nat, (p * 36) as nat);
            } else {
                assert(v + 1 == p);
                vstd::arithmetic::div_mod::lemma_mod_self_0(p);
                vstd::arithmetic::div_mod::lemma_mod_self_0(p * 36);
                assert(uid_value(t) == 0);
            }
        } else {
            let nd = next_uid_digit(last);
            assert(uid_successor(s) == init.push(nd));
            assert(init.push(nd).drop_last() =~= init);
            assert(all_uid_digits(init.push(nd))) by {
                assert forall|i: int| 0 <= i < init.len() + 1 implies is_uid_digit(
                    #[trigger] init.push(nd)[i],
                ) by {
                    if i < init.len() {
                        assert(init.push(nd)[i] == init[i]);
                        assert(init[i] == s[i]);
                    }
                }
            }
            assert(uid_digit_value(nd) == uid_digit_value(last) + 1);
            assert(uid_digit_value(last) <= 34);
            assert(v * 36 + uid_digit_value(last) + 1 < p * 36) by (nonlinear_arith)
                requires
                    0 <= v < p,
                    uid_digit_value(last) <= 34,
            ;
            assert(v * 36 + uid_digit_value(last) + 1 >= 0) by (nonlinear_arith)
                requires
                    0 <= v,
                    uid_digit_value(last) >= 0,
            ;
            vstd::arithmetic::div_mod::lemma_small_mod(
                (v * 36 + uid_digit_value(last) + 1) as nat,
                (p * 36) as nat,
            );
        }
    }
}


/// The state of the user ID generator: the three bytes of the server ID
/// that start every user ID, and the six digits of the last ID handed out.
pub struct UidGenerator {
    prefix: String,
    digits: Vec<u8>,
}

impl UidGenerator {
    /// The prefix, and the six digits of the last user ID.
    pub closed spec fn view(&self) -> (Seq<char>, Seq<u8>) {
        (self.prefix@, self.digits@)
    }

    #[verifier::type_invariant]
    spec fn well_formed(self) -> bool {
        self.digits@.len() == 6 && all_uid_digits(self.digits@)
    }
}

/// Advances the digits before and at `pos` as a base-36 counter; false
/// when the counter wrapped around.
fn increment_uid(uid: &mut Vec<u8>, pos: usize) -> (r: bool)
    requires
        pos < old(uid)@.len(),
        all_uid_digits(old(uid)@),
    ensures
        final(uid)@ == uid_successor(old(uid)@.take(pos + 1)) + old(uid)@.skip(pos + 1),
    decreases pos,
{
    let b = uid[pos];
    let ghost t = old(uid)@.take(pos + 1);
    proof {
        assert(is_uid_digit(old(uid)@[pos as int]));
        assert(t.last() == b);
        assert(t.drop_last() =~= old(uid)@.take(pos as int));
    }
    if b == 'Z' as u8 {
        uid.set(pos, '0' as u8);
        proof {
            assert(final(uid)@ =~= uid_successor(t) + old(uid)@.skip(pos + 1));
        }
        true
    } else if b == '9' as u8 {
        uid.set(pos, 'A' as u8);
        if pos == 0 {
            proof {
                assert(t.drop_last() =~= Seq::<u8>::empty());
                assert(uid_successor(t) == uid_successor(t.drop_last()).push('A' as u8));
                assert(uid_successor(Seq::<u8>::empty()) == Seq::<u8>::empty());
                assert(uid@ =~= uid_successor(t) + old(uid)@.skip(pos + 1));
            }
            false
        } else {
            let ghost mid = uid@;
            proof {
                assert forall|i: int| 0 <= i < mid.len() implies is_uid_digit(#[trigger] mid[i]) by {
                    if i != pos {
                        assert(mid[i] == old(uid)@[i]);
                    }
                }
            }
            let r = increment_uid(uid, pos - 1);
            proof {
                assert(mid.take(pos as int) =~= t.drop_last());
                assert(mid.skip(pos as int) =~= seq!['A' as u8] + old(uid)@.skip(pos + 1));
                assert(final(uid)@ =~= uid_successor(t) + old(uid)@.skip(pos + 1));
            }
            r
        }
    } else {
        uid.set(pos, b + 1);
        proof {
            assert(final(uid)@ =~= uid_successor(t) + old(uid)@.skip(pos + 1));
        }
        true
    }
}

/// `n` bytes `9`.
pub open spec fn nines(n: nat) -> Seq<u8> {
    Seq::new(n, |i: int| '9' as u8)
}

/// Starts the user ID generator for a server ID: user IDs start with the
/// first three bytes of it, and the six digits start at all `9`s, so
/// that the first ID handed out ends in all `A`s.
pub fn init_uid(sid: &str) -> (r: UidGenerator)
    requires
        sid.spec_bytes().len() >= 3,
        vstd::utf8::is_char_boundary(sid.spec_bytes(), 3),
    ensures
        encode_utf8(r@.0) == sid.spec_bytes().subrange(0, 3),
        r@.1 == nines(6),
{
    let (head, _tail) = sid.split_at(3);
    let prefix = head.to_owned();
    let mut digits: Vec<u8> = Vec::new();
    let mut i: usize = 0;
    while i < 6
        invariant
            i <= 6,
            digits@ == nines(i as nat),
        decreases 6 - i,
    {
        digits.push('9' as u8);
        proof {
            assert(digits@ =~= nines((i + 1) as nat));
        }
        i = i + 1;
    }
    proof {
        assert(all_uid_digits(digits@));
    }
    UidGenerator { prefix, digits }
}

/// The chars of a string of ASCII bytes.
pub open spec fn ascii_chars(s: Seq<u8>) -> Seq<char> {
    s.map_values(|b: u8| b as char)
}

/// Hands out the next user ID: the digits advance to their successor, and
/// the ID is the prefix followed by them.
pub fn get_uid(generator: &mut UidGenerator) -> (r: String)
    ensures
        final(generator)@.0 == old(generator)@.0,
        final(generator)@.1 == uid_successor(old(generator)@.1),
        r@ == final(generator)@.0 + ascii_chars(final(generator)@.1),
{
    proof {
        use_type_invariant(&*generator);
        law_uid_successor_counts(generator.digits@);
    }
    let mut digits = generator.digits.clone();
    let ghost before = digits@;
    increment_uid(&mut digits, 5);
    proof {
        assert(before.take(6) =~= before);
        assert(before.skip(6) =~= Seq::<u8>::empty());
        assert(digits@ =~= uid_successor(before));
    }
    generator.digits = digits;
    let mut out = generator.prefix.clone();
    let mut i: usize = 0;
    while i < 6
        invariant
            i <= 6,
            generator.digits@.len() == 6,
            out@ == generator.prefix@ + ascii_chars(generator.digits@.take(i as int)),
        decreases 6 - i,
    {
        let b = generator.digits[i];
        push_char(&mut out, b as char);
        proof {
            assert(ascii_chars(generator.digits@.take(i + 1)) =~= ascii_chars(
                generator.digits@.take(i as int),
            ).push(b as char));
        }
        i = i + 1;
    }
    proof {
        assert(generator.digits@.take(6) =~= generator.digits@);
    }
    out
}

} // verus!
