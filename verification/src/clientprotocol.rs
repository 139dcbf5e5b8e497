//! IRCv3 message tag value escaping.

use vstd::prelude::*;
use crate::text::{push_char, str_chars};

verus! {

/// The escaped form of one char: space, `;`, `\`, LF and CR become
/// `\s`, `\:`, `\\`, `\n` and `\r`; every other char stands for itself.
pub open spec fn escape_char(c: char) -> Seq<char> {
    if c == ' ' {
        seq!['\\', 's']
    } else if c == ';' {
        seq!['\\', ':']
    } else if c == '\\' {
        seq!['\\', '\\']
    } else if c == '\n' {
        seq!['\\', 'n']
    } else if c == '\r' {
        seq!['\\', 'r']
    } else {
        seq![c]
    }
}

/// The escaped form of a tag value.
pub open spec fn escape_seq(s: Seq<char>) -> Seq<char>
    decreases s.len(),
{
    if s.len() == 0 {
        Seq::empty()
    } else {
        escape_char(s[0]) + escape_seq(s.drop_first())
    }
}

/// The char that `\` followed by `c` stands for.
pub open spec fn unescape_char(c: char) -> char {
    if c == 's' {
        ' '
    } else if c == ':' {
        ';'
    } else if c == 'n' {
        '\n'
    } else if c == 'r' {
        '\r'
    } else {
        c
    }
}

/// The unescaped form of a tag value: `\` and the char after it stand for
/// one char, a trailing lone `\` is dropped.
pub open spec fn unescape_seq(s: Seq<char>) -> Seq<char>
    decreases s.len(),
{
    if s.len() == 0 {
        Seq::empty()
    } else if s[0] != '\\' {
        seq![s[0]] + unescape_seq(s.drop_first())
    } else if s.len() == 1 {
        Seq::empty()
    } else {
        seq![unescape_char(s[1])] + unescape_seq(s.subrange(2, s.len() as int))
    }
}

/// Escapes special characters in IRC message tags according to IRCv3 tag
/// escaping rules.
pub fn escape_tag(value: &str) -> (r: String)
    ensures
        r@ == escape_seq(value@),
{
    let v = str_chars(value);
    let mut ret = String::new();
    let mut i: usize = 0;
    proof {
        assert(v@.skip(0) =~= v@);
        assert(ret@ + escape_seq(v@) =~= escape_seq(v@));
    }
    while i < v.len()
        invariant
            v@ == value@,
            i <= v.len(),
            ret@ + escape_seq(v@.skip(i as int)) == escape_seq(value@),
        decreases v.len() - i,
    {
        let chr = v[i];
        proof {
            assert(v@.skip(i as int).drop_first() =~= v@.skip(i + 1));
            assert(v@.skip(i as int)[0] == chr);
        }
        let ghost before = ret@;
        if chr == ' ' {
            push_char(&mut ret, '\\');
            push_char(&mut ret, 's');
        } else if chr == ';' {
            push_char(&mut ret, '\\');
            push_char(&mut ret, ':');
        } else if chr == '\\' {
            push_char(&mut ret, '\\');
            push_char(&mut ret, '\\');
        } else if chr == '\n' {
            push_char(&mut ret, '\\');
            push_char(&mut ret, 'n');
        } else if chr == '\r' {
            push_char(&mut ret, '\\');
            push_char(&mut ret, 'r');
        } else {
            push_char(&mut ret, chr);
        }
        proof {
            assert(ret@ =~= before + escape_char(chr));
            assert(before + escape_char(chr) + escape_seq(v@.skip(i + 1)) =~= before + (escape_char(chr)
                + escape_seq(v@.skip(i + 1))));
        }
        i = i + 1;
    }
    proof {
        assert(v@.skip(i as int) =~= Seq::<char>::empty());
        assert(ret@ + Seq::<char>::empty() =~= ret@);
    }
    ret
}

/// Unescapes special characters in IRC message tags according to IRCv3
/// tag escaping rules.
pub fn unescape_tag(value: &str) -> (r: String)
    ensures
        r@ == unescape_seq(value@),
{
    let v = str_chars(value);
    let mut ret = String::new();
    let mut i: usize = 0;
    proof {
        assert(v@.skip(0) =~= v@);
        assert(ret@ + unescape_seq(v@) =~= unescape_seq(v@));
    }
    while i < v.len()
        invariant
            v@ == value@,
            i <= v.len(),
            ret@ + unescape_seq(v@.skip(i as int)) == unescape_seq(value@),
        decreases v.len() - i,
    {
        let chr = v[i];
        let ghost rest = v@.skip(i as int);
        let ghost before = ret@;
        proof {
            assert(rest[0] == chr);
        }
        if chr != '\\' {
            push_char(&mut ret, chr);
            proof {
                assert(rest.drop_first() =~= v@.skip(i + 1));
                assert(before + unescape_seq(rest) =~= ret@ + unescape_seq(v@.skip(i + 1)));
            }
            i = i + 1;
        } else if i + 1 < v.len() {
            let next = v[i + 1];
            let out = if next == 's' {
                ' '
            } else if next == ':' {
                ';'
            } else if next == 'n' {
                '\n'
            } else if next == 'r' {
                '\r'
            } else {
                next
            };
            push_char(&mut ret, out);
            proof {
                assert(rest[1] == next);
                assert(rest.subrange(2, rest.len() as int) =~= v@.skip(i + 2));
                assert(before + unescape_seq(rest) =~= ret@ + unescape_seq(v@.skip(i + 2)));
            }
            i = i + 2;
        } else {
            proof {
                assert(rest.len() == 1);
                assert(v@.skip(i + 1) =~= Seq::<char>::empty());
            }
            i = i + 1;
        }
    }
    proof {
        assert(v@.skip(i as int) =~= Seq::<char>::empty());
        assert(ret@ + Seq::<char>::empty() =~= ret@);
    }
    ret
}

/// Unescaping an escaped tag value gives back the original value.
pub proof fn law_unescape_inverts_escape(s: Seq<char>)
    ensures
        unescape_seq(escape_seq(s)) == s,
    decreases s.len(),
{
    if s.len() > 0 {
        law_unescape_inverts_escape(s.drop_first());
        let c = s[0];
        let e = escape_char(c);
        let rest = escape_seq(s.drop_first());
        let whole = e + rest;
        if e.len() == 1 {
            assert(whole[0] == c);
            assert(whole.drop_first() =~= rest);
        } else {
            assert(whole[0] == '\\');
            assert(whole[1] == e[1]);
            assert(whole.subrange(2, whole.len() as int) =~= rest);
        }
        assert(seq![c] + s.drop_first() =~= s);
    }
}

/// One of the five chars that tag escaping replaces: space, `;`, `\\`,
/// LF and CR.
pub open spec fn is_tag_special(c: char) -> bool {
    c == ' ' || c == ';' || c == '\\' || c == '\n' || c == '\r'
}

/// Escaping changes only the five special chars: a value without any of
/// them is its own escaped form, and the escaped form of any value holds
/// no space, `;`, LF or CR.
pub proof fn law_escape_touches_only_specials(s: Seq<char>)
    ensures
        (forall|i: int| 0 <= i < s.len() ==> !is_tag_special(#[trigger] s[i])) ==> escape_seq(s) == s,
        forall|i: int| 0 <= i < escape_seq(s).len() ==> {
            let c = #[trigger] escape_seq(s)[i];
            c != ' ' && c != ';' && c != '\n' && c != '\r'
        },
    decreases s.len(),
{
    if s.len() > 0 {
        law_escape_touches_only_specials(s.drop_first());
        let e = escape_char(s[0]);
        let rest = escape_seq(s.drop_first());
        assert(escape_seq(s) == e + rest);
        if forall|i: int| 0 <= i < s.len() ==> !is_tag_special(#[trigger] s[i]) {
            assert(!is_tag_special(s[0]));
            assert forall|i: int| 0 <= i < s.drop_first().len() implies !is_tag_special(
                #[trigger] s.drop_first()[i],
            ) by {
                assert(s.drop_first()[i] == s[i + 1]);
            }
            assert(seq![s[0]] + s.drop_first() =~= s);
        }
        assert forall|i: int| 0 <= i < escape_seq(s).len() implies {
            let c = #[trigger] escape_seq(s)[i];
            c != ' ' && c != ';' && c != '\n' && c != '\r'
        } by {
            if i >= e.len() {
                assert(escape_seq(s)[i] == rest[i - e.len()]);
            } else {
                assert(escape_seq(s)[i] == e[i]);
            }
        }
    }
}

} // verus!
