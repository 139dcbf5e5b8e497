//! Users: the masks that identify them, the display of their addresses,
//! the cleaning of lines they send, their mode letters, and the layout of
//! their away state.

use vstd::prelude::*;
use crate::stringutils::StdString;

verus! {

/// A user's away message and when it was set.
pub struct AwayState {
    pub message: StdString,
    pub time: i64,
}

/// An away state that may be absent.
pub struct AwayOptional {
    pub has_value: u8,
    pub _pad: [u8; 7],
    pub value: AwayState,
}

/// Whether a byte names a snomask: an ASCII letter.
pub fn snomask_char_is_valid(c: u8) -> (r: bool)
    ensures
        r == (('a' as u8 <= c <= 'z' as u8) || ('A' as u8 <= c <= 'Z' as u8)),
{
    ('a' as u8 <= c && c <= 'z' as u8) || ('A' as u8 <= c && c <= 'Z' as u8)
}

fn append_slice(v: &mut Vec<u8>, s: &[u8])
    ensures
        final(v)@ == old(v)@ + s@,
{
    let mut i: usize = 0;
    while i < s.len()
        invariant
            i <= s@.len(),
            v@ == old(v)@ + s@.take(i as int),
        decreases s.len() - i,
    {
        v.push(s[i]);
        proof {
            assert(s@.take(i + 1) =~= s@.take(i as int).push(s@[i as int]));
        }
        i = i + 1;
    }
    proof {
        assert(s@.take(s@.len() as int) =~= s@);
    }
}

/// `user@host`.
pub fn fmt_user_at_host(user: &[u8], host: &[u8]) -> (r: Vec<u8>)
    ensures
        r@ == user@ + seq!['@' as u8] + host@,
{
    let mut v: Vec<u8> = Vec::new();
    append_slice(&mut v, user);
    v.push('@' as u8);
    append_slice(&mut v, host);
    proof {
        assert(v@ =~= user@ + seq!['@' as u8] + host@);
    }
    v
}

/// `nick!user@host`.
pub fn fmt_nick_user_host(nick: &[u8], user: &[u8], host: &[u8]) -> (r: Vec<u8>)
    ensures
        r@ == nick@ + seq!['!' as u8] + user@ + seq!['@' as u8] + host@,
{
    let mut v: Vec<u8> = Vec::new();
    append_slice(&mut v, nick);
    v.push('!' as u8);
    append_slice(&mut v, user);
    v.push('@' as u8);
    append_slice(&mut v, host);
    proof {
        assert(v@ =~= nick@ + seq!['!' as u8] + user@ + seq!['@' as u8] + host@);
    }
    v
}

/// How an address is displayed: one starting with `:` gets a `0` in front
/// so that it cannot be taken for the start of a trailing parameter.
pub open spec fn spec_addr_display(a: Seq<u8>) -> Seq<u8> {
    if a.len() > 0 && a[0] == ':' as u8 {
        seq!['0' as u8] + a
    } else {
        a
    }
}

/// The displayed form of an address.
pub fn normalize_addr_display(addr: &[u8]) -> (r: Vec<u8>)
    ensures
        r@ == spec_addr_display(addr@),
{
    let mut v: Vec<u8> = Vec::new();
    if addr.len() > 0 && addr[0] == ':' as u8 {
        v.push('0' as u8);
    }
    append_slice(&mut v, addr);
    proof {
        assert(Seq::<u8>::empty() + addr@ =~= addr@);
        assert(v@ =~= spec_addr_display(addr@));
    }
    v
}

/// A line as the server takes it from a client: carriage returns dropped
/// and NUL bytes turned into spaces.
pub open spec fn spec_filter_irc_line(s: Seq<u8>) -> Seq<u8>
    decreases s.len(),
{
    if s.len() == 0 {
        s
    } else {
        let init = spec_filter_irc_line(s.drop_last());
        let c = s.last();
        if c == 13 {
            init
        } else if c == 0 {
            init.push(' ' as u8)
        } else {
            init.push(c)
        }
    }
}

/// Cleans a line received from a client.
pub fn filter_irc_line(line: &[u8]) -> (r: Vec<u8>)
    ensures
        r@ == spec_filter_irc_line(line@),
{
    let mut v: Vec<u8> = Vec::new();
    let mut i: usize = 0;
    while i < line.len()
        invariant
            i <= line@.len(),
            v@ == spec_filter_irc_line(line@.take(i as int)),
        decreases line.len() - i,
    {
        let c = line[i];
        proof {
            assert(line@.take(i + 1).drop_last() =~= line@.take(i as int));
        }
        if c != 13 {
            v.push(if c == 0 {
                ' ' as u8
            } else {
                c
            });
        }
        i = i + 1;
    }
    proof {
        assert(line@.take(i as int) =~= line@);
    }
    v
}

/// A mode that a user has set: its letter, and its parameter where it is
/// listed with one.
pub struct SetMode {
    pub letter: u8,
    pub param: Option<Vec<u8>>,
}

/// The mode letters and listed parameters of the modes set, in order.
pub open spec fn spec_mode_letters(modes: Seq<SetMode>, includeparams: bool) -> (Seq<u8>, Seq<u8>)
    decreases modes.len(),
{
    if modes.len() == 0 {
        (seq!['+' as u8], Seq::empty())
    } else {
        let (l, p) = spec_mode_letters(modes.drop_last(), includeparams);
        let m = modes.last();
        if m.letter == 0 {
            (l, p)
        } else {
            let p2 = match m.param {
                Some(x) => if includeparams && x@.len() > 0 {
                    p + seq![' ' as u8] + x@
                } else {
                    p
                },
                None => p,
            };
            (l.push(m.letter), p2)
        }
    }
}

/// The mode string of a user: `+`, the letters of the modes set (a zero
/// letter skipped), and where parameters are included, each nonempty
/// parameter after a space.
pub fn user_mode_letters(modes: &Vec<SetMode>, includeparams: bool) -> (r: Vec<u8>)
    ensures
        r@ == spec_mode_letters(modes@, includeparams).0 + spec_mode_letters(modes@, includeparams).1,
{
    let mut letters: Vec<u8> = Vec::new();
    letters.push('+' as u8);
    let mut params: Vec<u8> = Vec::new();
    let mut i: usize = 0;
    proof {
        assert(modes@.take(0) =~= Seq::<SetMode>::empty());
    }
    while i < modes.len()
        invariant
            i <= modes@.len(),
            (letters@, params@) == spec_mode_letters(modes@.take(i as int), includeparams),
        decreases modes.len() - i,
    {
        proof {
            assert(modes@.take(i + 1).drop_last() =~= modes@.take(i as int));
        }
        let ch = modes[i].letter;
        if ch != 0 {
            letters.push(ch);
            if includeparams {
                match &modes[i].param {
                    Some(x) => {
                        if x.len() > 0 {
                            params.push(' ' as u8);
                            append_slice(&mut params, x.as_slice());
                        }
                    },
                    None => {},
                }
            }
        }
        i = i + 1;
    }
    proof {
        assert(modes@.take(i as int) =~= modes@);
    }
    append_slice(&mut letters, params.as_slice());
    letters
}

} // verus!
