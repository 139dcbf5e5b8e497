//! The TOML configuration file: its sections as read, the variables that
//! its values may refer to, and the server configuration built from it.

use vstd::prelude::*;
use crate::text::{str_chars, string_from_chars, to_lowercase, unicode_lowercase, str_equals};
use crate::configreader::{bool_from_word, bool_word};

verus! {

/// A listener to bind to.
pub struct BindConfig {
    pub address: Option<String>,
    pub port: Option<String>,
    pub bind_type: Option<String>,
    pub sslprofile: Option<String>,
    pub defer: Option<String>,
    pub free: Option<String>,
    pub path: Option<String>,
    pub permissions: Option<String>,
    pub replace: Option<String>,
    pub hook: Option<String>,
}

/// A connect class.
pub struct ConnectClassConfig {
    pub name: Option<String>,
    pub parent: Option<String>,
    pub allow: Option<String>,
    pub deny: Option<String>,
    pub reason: Option<String>,
    pub hash: Option<String>,
    pub password: Option<String>,
    pub maxchans: Option<String>,
    pub timeout: Option<String>,
    pub localmax: Option<String>,
    pub globalmax: Option<String>,
    pub maxconnwarn: Option<String>,
    pub resolvehostnames: Option<String>,
    pub useconnectban: Option<String>,
    pub useconnflood: Option<String>,
}

/// The limits section.
pub struct LimitsConfig {
    pub maxline: Option<usize>,
    pub maxnick: Option<usize>,
    pub maxchan: Option<usize>,
    pub maxmodes: Option<usize>,
    pub maxuser: Option<usize>,
    pub maxquit: Option<usize>,
    pub maxtopic: Option<usize>,
    pub maxkick: Option<usize>,
    pub maxreal: Option<usize>,
    pub maxaway: Option<usize>,
    pub maxhost: Option<usize>,
    pub maxkey: Option<usize>,
}

/// The paths section.
pub struct PathsConfig {
    pub configdir: Option<String>,
    pub datadir: Option<String>,
    pub logdir: Option<String>,
    pub moduledir: Option<String>,
    pub runtimedir: Option<String>,
}

/// The performance section.
pub struct PerformanceConfig {
    pub somaxconn: Option<i32>,
    pub netbuffersize: Option<usize>,
    pub softlimit: Option<usize>,
    pub timeskipwarn: Option<u64>,
}

/// The security section.
pub struct SecurityConfig {
    pub customversion: Option<String>,
    pub hideserver: Option<String>,
    pub maxtargets: Option<usize>,
    pub publicxlinequit: Option<String>,
    pub hidebans: Option<bool>,
}

/// The CIDR section.
pub struct CidrConfig {
    pub ipv4clone: Option<u8>,
    pub ipv6clone: Option<u8>,
}

/// The options section.
pub struct OptionsConfig {
    pub defaultmodes: Option<String>,
    pub maskinlist: Option<bool>,
    pub maskintopic: Option<bool>,
    pub hostintopic: Option<bool>,
    pub nosnoticestack: Option<bool>,
    pub syntaxhints: Option<bool>,
    pub xlinemessage: Option<String>,
    pub xlinequit: Option<String>,
    pub restrictbannedusers: Option<String>,
    pub defaultbind: Option<String>,
}

/// The admin section.
pub struct AdminConfig {
    pub name: Option<String>,
    pub description: Option<String>,
    pub email: Option<String>,
}

/// A TLS profile.
pub struct SslProfileConfig {
    pub name: Option<String>,
    pub profile_type: Option<String>,
    pub certfile: Option<String>,
    pub keyfile: Option<String>,
    pub cafile: Option<String>,
    pub capath: Option<String>,
    pub dhfile: Option<String>,
    pub cipher: Option<String>,
    pub protocol: Option<String>,
}

/// A module to load.
pub struct ModuleConfig {
    pub name: Option<String>,
    pub args: Option<String>,
}

/// A configuration file as read: each section where it is present.
pub struct TomlServerConfig {
    pub server: Option<ServerConfig>,
    pub admin: Option<AdminConfig>,
    pub binds: Option<Vec<BindConfig>>,
    pub connect: Option<Vec<ConnectClassConfig>>,
    pub limits: Option<LimitsConfig>,
    pub paths: Option<PathsConfig>,
    pub performance: Option<PerformanceConfig>,
    pub security: Option<SecurityConfig>,
    pub cidr: Option<CidrConfig>,
    pub options: Option<OptionsConfig>,
    pub modules: Option<Vec<ModuleConfig>>,
    pub sslprofiles: Option<Vec<SslProfileConfig>>,
    pub defines: Option<Vec<(String, String)>>,
    pub dns: Option<DnsConfig>,
    pub whowas: Option<WhowasConfig>,
    pub files: Option<FilesConfig>,
    pub insane: Option<InsaneConfig>,
    pub badips: Option<Vec<BadIpConfig>>,
    pub badnicks: Option<Vec<BadNickConfig>>,
    pub badhosts: Option<Vec<BadHostConfig>>,
    pub exceptions: Option<Vec<ExceptionConfig>>,
    pub maxlists: Option<Vec<MaxListConfig>>,
}

/// The DNS section.
pub struct DnsConfig {
    pub timeout: Option<u64>,
}

/// The WHOWAS section.
pub struct WhowasConfig {
    pub groupsize: Option<usize>,
    pub maxgroups: Option<usize>,
    pub maxkeep: Option<String>,
    pub nickupdate: Option<bool>,
}

/// The files section.
pub struct FilesConfig {
    pub motd: Option<String>,
}

/// The insane section.
pub struct InsaneConfig {
    pub hostmasks: Option<bool>,
    pub ipmasks: Option<bool>,
    pub nickmasks: Option<bool>,
    pub trigger: Option<String>,
}

/// A banned IP mask.
pub struct BadIpConfig {
    pub ipmask: Option<String>,
    pub reason: Option<String>,
}

/// A banned nickname.
pub struct BadNickConfig {
    pub nick: Option<String>,
    pub reason: Option<String>,
}

/// A banned host.
pub struct BadHostConfig {
    pub host: Option<String>,
    pub reason: Option<String>,
}

/// An exception to bans.
pub struct ExceptionConfig {
    pub host: Option<String>,
    pub reason: Option<String>,
}

/// A limit on a list mode.
pub struct MaxListConfig {
    pub mode: Option<String>,
    pub chan: Option<String>,
    pub limit: Option<usize>,
}

/// The server section.
pub struct ServerConfig {
    pub name: Option<String>,
    pub id: Option<String>,
    pub description: Option<String>,
    pub network: Option<String>,
}

/// The defined variables, as name and value pairs.
pub type Defines = Seq<(Seq<char>, Seq<char>)>;

/// The value of the first variable defined under `name`.
pub open spec fn define_lookup(defs: Defines, name: Seq<char>) -> Option<Seq<char>>
    decreases defs.len(),
{
    if defs.len() == 0 {
        None
    } else if defs[0].0 == name {
        Some(defs[0].1)
    } else {
        define_lookup(defs.skip(1), name)
    }
}

/// The defined variables of a list of name and value strings.
pub open spec fn defines_view(defs: Seq<(String, String)>) -> Defines {
    Seq::new(defs.len(), |i: int| (defs[i].0@, defs[i].1@))
}

/// What a reference `&name;` stands for: the built-in directories, the
/// network name and domain (defined or by default), a defined variable,
/// and else the reference itself.
pub open spec fn variable_value(name: Seq<char>, defs: Defines) -> Seq<char> {
    if name == "dir.config"@ {
        "./run/conf"@
    } else if name == "dir.example"@ {
        "./run/conf/examples"@
    } else if name == "dir.data"@ {
        "./run/data"@
    } else if name == "dir.log"@ {
        "./run/logs"@
    } else if name == "dir.module"@ {
        "./run/modules"@
    } else if name == "dir.runtime"@ {
        "./run/data"@
    } else if name == "networkDomain"@ {
        match define_lookup(defs, "networkDomain"@) {
            Some(v) => v,
            None => "example.com"@,
        }
    } else if name == "networkName"@ {
        match define_lookup(defs, "networkName"@) {
            Some(v) => v,
            None => "ExampleNet"@,
        }
    } else {
        match define_lookup(defs, name) {
            Some(v) => v,
            None => "&"@ + name + ";"@,
        }
    }
}

/// Whether a reference `&name;` names something: a built-in directory,
/// the network name or domain, or a defined variable.
pub open spec fn reference_known(name: Seq<char>, defs: Defines) -> bool {
    name == "dir.config"@ || name == "dir.example"@ || name == "dir.data"@ || name == "dir.log"@
        || name == "dir.module"@ || name == "dir.runtime"@ || name == "networkDomain"@ || name
        == "networkName"@ || define_lookup(defs, name) is Some
}

/// The index of the first `;` or `&` at or after `from`, or the length.
pub open spec fn reference_end(s: Seq<char>, from: int) -> int
    decreases s.len() - from,
{
    if from < 0 || from >= s.len() {
        s.len() as int
    } else if s[from] == ';' || s[from] == '&' {
        from
    } else {
        reference_end(s, from + 1)
    }
}

/// How many chars of `s` lie at or after `i`.
pub open spec fn chars_left(s: Seq<char>, i: int) -> nat {
    if 0 <= i < s.len() {
        (s.len() - i) as nat
    } else {
        0
    }
}

/// One pass of substitution over `s[i..]`: each `&name;` with a nonempty
/// name is replaced by what it stands for, other chars are kept; the flag
/// tells whether a reference to something known was replaced (a reference
/// to an unknown name stands for itself and changes nothing).
pub open spec fn substitution_pass(s: Seq<char>, i: int, defs: Defines) -> (Seq<char>, bool)
    decreases chars_left(s, i),
{
    if i < 0 || i >= s.len() {
        (Seq::empty(), false)
    } else if s[i] != '&' {
        let r = substitution_pass(s, i + 1, defs);
        (seq![s[i]] + r.0, r.1)
    } else {
        let j = reference_end(s, i + 1);
        if j <= i {
            (Seq::empty(), false)
        } else {
            let name = s.subrange(i + 1, j);
            if j < s.len() && s[j] == ';' {
                let r = substitution_pass(s, j + 1, defs);
                if name.len() > 0 {
                    (variable_value(name, defs) + r.0, r.1 || reference_known(name, defs))
                } else {
                    (seq!['&'] + name + seq![';'] + r.0, r.1)
                }
            } else {
                let r = substitution_pass(s, j, defs);
                (seq!['&'] + name + r.0, r.1)
            }
        }
    }
}

/// The string after `n` passes of substitution.
pub open spec fn substitution_iterate(s: Seq<char>, defs: Defines, n: nat) -> Seq<char>
    decreases n,
{
    if n == 0 {
        s
    } else {
        substitution_pass(substitution_iterate(s, defs, (n - 1) as nat), 0, defs).0
    }
}

/// After `n` passes, a further pass replaces nothing.
pub open spec fn settled_after(s: Seq<char>, defs: Defines, n: nat) -> bool {
    !substitution_pass(substitution_iterate(s, defs, n), 0, defs).1
}

/// Substitution comes to an end: after some number of passes nothing is
/// left to replace.
pub open spec fn substitution_settles(s: Seq<char>, defs: Defines) -> bool {
    exists|n: nat| settled_after(s, defs, n)
}

/// The result of substitution: the string once nothing is left to
/// replace.
pub open spec fn spec_substitute(s: Seq<char>, defs: Defines) -> Seq<char> {
    substitution_iterate(s, defs, choose|n: nat| settled_after(s, defs, n))
}

proof fn lemma_pass_unchanged(s: Seq<char>, i: int, defs: Defines)
    requires
        0 <= i <= s.len(),
        !substitution_pass(s, i, defs).1,
    ensures
        substitution_pass(s, i, defs).0 == s.skip(i),
    decreases chars_left(s, i),
{
    if i < s.len() {
        if s[i] != '&' {
            lemma_pass_unchanged(s, i + 1, defs);
            assert(seq![s[i]] + s.skip(i + 1) =~= s.skip(i));
        } else {
            lemma_reference_end(s, i + 1);
            let j = reference_end(s, i + 1);
            let name = s.subrange(i + 1, j);
            if j < s.len() && s[j] == ';' {
                lemma_pass_unchanged(s, j + 1, defs);
                if name.len() > 0 {
                    reveal_strlit("&");
                    reveal_strlit(";");
                    assert(variable_value(name, defs) == "&"@ + name + ";"@);
                    assert("&"@ + name + ";"@ =~= seq!['&'] + name + seq![';']);
                }
                assert(seq!['&'] + name + seq![';'] + s.skip(j + 1) =~= s.skip(i));
            } else {
                lemma_pass_unchanged(s, j, defs);
                assert(seq!['&'] + name + s.skip(j) =~= s.skip(i));
            }
        }
    } else {
        assert(s.skip(i) =~= Seq::<char>::empty());
    }
}

proof fn lemma_reference_end(s: Seq<char>, from: int)
    requires
        0 <= from,
    ensures
        from <= reference_end(s, from) <= s.len() || (from > s.len() && reference_end(s, from)
            == s.len()),
        reference_end(s, from) < s.len() ==> (s[reference_end(s, from)] == ';' || s[reference_end(
            s,
            from,
        )] == '&'),
        forall|k: int| from <= k < reference_end(s, from) ==> s[k] != ';' && s[k] != '&',
    decreases s.len() - from,
{
    if from < s.len() && !(s[from] == ';' || s[from] == '&') {
        lemma_reference_end(s, from + 1);
    }
}

proof fn lemma_settled_stays(s: Seq<char>, defs: Defines, n: nat, m: nat)
    requires
        settled_after(s, defs, n),
        n <= m,
    ensures
        substitution_iterate(s, defs, m) == substitution_iterate(s, defs, n),
    decreases m - n,
{
    if m > n {
        lemma_settled_stays(s, defs, n, (m - 1) as nat);
        let t = substitution_iterate(s, defs, n);
        lemma_pass_unchanged(t, 0, defs);
        assert(t.skip(0) =~= t);
    }
}

/// Substitution gives the same string whichever number of passes after
/// which nothing is left to replace is taken.
proof fn lemma_substitute_is(s: Seq<char>, defs: Defines, n: nat)
    requires
        settled_after(s, defs, n),
    ensures
        spec_substitute(s, defs) == substitution_iterate(s, defs, n),
{
    let c = choose|k: nat| settled_after(s, defs, k);
    if c <= n {
        lemma_settled_stays(s, defs, c, n);
    } else {
        lemma_settled_stays(s, defs, n, c);
    }
}


fn chars_equal_str(name: &Vec<char>, lit: &str) -> (r: bool)
    ensures
        r == (name@ == lit@),
{
    let l = str_chars(lit);
    if name.len() != l.len() {
        return false;
    }
    let mut i: usize = 0;
    while i < l.len()
        invariant
            l@ == lit@,
            name@.len() == l@.len(),
            i <= l@.len(),
            forall|j: int| 0 <= j < i ==> name@[j] == l@[j],
        decreases l.len() - i,
    {
        if name[i] != l[i] {
            return false;
        }
        i = i + 1;
    }
    proof {
        assert(name@ =~= l@);
    }
    true
}

fn lookup_define(defs: &Vec<(String, String)>, name: &Vec<char>) -> (r: Option<Vec<char>>)
    ensures
        match define_lookup(defines_view(defs@), name@) {
            Some(v) => r matches Some(x) && x@ == v,
            None => r is None,
        },
{
    let ghost dv = defines_view(defs@);
    let mut i: usize = 0;
    proof {
        assert(dv.skip(0) =~= dv);
    }
    while i < defs.len()
        invariant
            i <= defs@.len(),
            dv == defines_view(defs@),
            define_lookup(dv, name@) == define_lookup(dv.skip(i as int), name@),
        decreases defs.len() - i,
    {
        let ghost rest = dv.skip(i as int);
        proof {
            assert(rest[0] == (defs@[i as int].0@, defs@[i as int].1@));
            assert(rest.skip(1) =~= dv.skip(i + 1));
        }
        let k = str_chars(defs[i].0.as_str());
        if k.len() == name.len() {
            let mut j: usize = 0;
            let mut same = true;
            while j < k.len()
                invariant
                    k@.len() == name@.len(),
                    j <= k@.len(),
                    same == (forall|m: int| 0 <= m < j ==> k@[m] == name@[m]),
                decreases k.len() - j,
            {
                if k[j] != name[j] {
                    same = false;
                }
                j = j + 1;
            }
            if same {
                proof {
                    assert(k@ =~= name@);
                }
                return Some(str_chars(defs[i].1.as_str()));
            } else {
                proof {
                    assert(k@ != name@);
                }
            }
        }
        i = i + 1;
    }
    proof {
        assert(dv.skip(i as int) =~= Seq::<(Seq<char>, Seq<char>)>::empty());
    }
    None
}

fn push_str(out: &mut Vec<char>, s: &str)
    ensures
        final(out)@ == old(out)@ + s@,
{
    let c = str_chars(s);
    push_chars(out, &c);
}

fn push_chars(out: &mut Vec<char>, c: &Vec<char>)
    ensures
        final(out)@ == old(out)@ + c@,
{
    let mut i: usize = 0;
    while i < c.len()
        invariant
            i <= c@.len(),
            out@ == old(out)@ + c@.take(i as int),
        decreases c.len() - i,
    {
        out.push(c[i]);
        proof {
            assert(c@.take(i + 1) =~= c@.take(i as int).push(c@[i as int]));
        }
        i = i + 1;
    }
    proof {
        assert(c@.take(c@.len() as int) =~= c@);
    }
}

fn push_variable_value(out: &mut Vec<char>, name: &Vec<char>, defs: &Vec<(String, String)>) -> (known: bool)
    ensures
        final(out)@ == old(out)@ + variable_value(name@, defines_view(defs@)),
        known == reference_known(name@, defines_view(defs@)),
{
    proof {
        reveal_strlit("dir.config");
        reveal_strlit("dir.example");
        reveal_strlit("dir.data");
        reveal_strlit("dir.log");
        reveal_strlit("dir.module");
        reveal_strlit("dir.runtime");
        reveal_strlit("networkDomain");
        reveal_strlit("networkName");
    }
    if chars_equal_str(name, "dir.config") {
        push_str(out, "./run/conf");
        true
    } else if chars_equal_str(name, "dir.example") {
        push_str(out, "./run/conf/examples");
        true
    } else if chars_equal_str(name, "dir.data") {
        push_str(out, "./run/data");
        true
    } else if chars_equal_str(name, "dir.log") {
        push_str(out, "./run/logs");
        true
    } else if chars_equal_str(name, "dir.module") {
        push_str(out, "./run/modules");
        true
    } else if chars_equal_str(name, "dir.runtime") {
        push_str(out, "./run/data");
        true
    } else if chars_equal_str(name, "networkDomain") {
        match lookup_define(defs, name) {
            Some(v) => push_chars(out, &v),
            None => push_str(out, "example.com"),
        }
        true
    } else if chars_equal_str(name, "networkName") {
        match lookup_define(defs, name) {
            Some(v) => push_chars(out, &v),
            None => push_str(out, "ExampleNet"),
        }
        true
    } else {
        match lookup_define(defs, name) {
            Some(v) => {
                push_chars(out, &v);
                true
            },
            None => {
                out.push('&');
                push_chars(out, name);
                out.push(';');
                proof {
                    assert(final(out)@ =~= old(out)@ + ("&"@ + name@ + ";"@)) by {
                        reveal_strlit("&");
                        reveal_strlit(";");
                    }
                }
                false
            },
        }
    }
}

fn substitution_pass_of(s: &Vec<char>, defs: &Vec<(String, String)>) -> (r: (Vec<char>, bool))
    ensures
        (r.0@, r.1) == substitution_pass(s@, 0, defines_view(defs@)),
{
    let ghost dv = defines_view(defs@);
    let n = s.len();
    let mut out: Vec<char> = Vec::new();
    let mut changed = false;
    let mut i: usize = 0;
    proof {
        assert(Seq::<char>::empty() + substitution_pass(s@, 0, dv).0 =~= substitution_pass(s@, 0, dv).0);
    }
    while i < n
        invariant
            n == s@.len(),
            i <= n,
            dv == defines_view(defs@),
            substitution_pass(s@, 0, dv).0 == out@ + substitution_pass(s@, i as int, dv).0,
            substitution_pass(s@, 0, dv).1 == (changed || substitution_pass(s@, i as int, dv).1),
        decreases n - i,
    {
        let ghost before = out@;
        if s[i] != '&' {
            let c = s[i];
            out.push(c);
            proof {
                assert(before.push(c) + substitution_pass(s@, i + 1, dv).0 =~= before + (seq![c]
                    + substitution_pass(s@, i + 1, dv).0));
            }
            i = i + 1;
        } else {
            let mut j = i + 1;
            while j < n && s[j] != ';' && s[j] != '&'
                invariant
                    n == s@.len(),
                    i < n,
                    i + 1 <= j <= n,
                    reference_end(s@, i + 1) == reference_end(s@, j as int),
                decreases n - j,
            {
                j = j + 1;
            }
            let ghost name_s = s@.subrange(i + 1, j as int);
            let name: Vec<char> = slice_chars(s, i + 1, j);
            if j < n && s[j] == ';' {
                if name.len() > 0 {
                    let known = push_variable_value(&mut out, &name, defs);
                    changed = changed || known;
                    proof {
                        assert(out@ + substitution_pass(s@, j + 1, dv).0 =~= before + (
                        variable_value(name_s, dv) + substitution_pass(s@, j + 1, dv).0));
                    }
                } else {
                    out.push('&');
                    out.push(';');
                    proof {
                        assert(out@ + substitution_pass(s@, j + 1, dv).0 =~= before + (seq!['&']
                            + name_s + seq![';'] + substitution_pass(s@, j + 1, dv).0));
                    }
                }
                i = j + 1;
            } else {
                out.push('&');
                push_chars(&mut out, &name);
                proof {
                    assert(out@ + substitution_pass(s@, j as int, dv).0 =~= before + (seq!['&']
                        + name_s + substitution_pass(s@, j as int, dv).0));
                }
                i = j;
            }
        }
    }
    proof {
        assert(out@ + Seq::<char>::empty() =~= out@);
    }
    (out, changed)
}

fn slice_chars(s: &Vec<char>, from: usize, to: usize) -> (r: Vec<char>)
    requires
        from <= to <= s@.len(),
    ensures
        r@ == s@.subrange(from as int, to as int),
{
    let mut r: Vec<char> = Vec::new();
    let mut i = from;
    while i < to
        invariant
            from <= i <= to <= s@.len(),
            r@ == s@.subrange(from as int, i as int),
        decreases to - i,
    {
        r.push(s[i]);
        proof {
            assert(s@.subrange(from as int, i + 1) =~= s@.subrange(from as int, i as int).push(
                s@[i as int],
            ));
        }
        i = i + 1;
    }
    r
}

/// Replaces the variable references `&name;` in a string until none is
/// left, where that comes to an end.
pub fn apply_variable_substitution(s: &str, defines: &Vec<(String, String)>) -> (r: String)
    requires
        substitution_settles(s@, defines_view(defines@)),
    ensures
        r@ == spec_substitute(s@, defines_view(defines@)),
{
    let ghost dv = defines_view(defines@);
    let ghost n0 = choose|n: nat| settled_after(s@, dv, n);
    let mut cur = str_chars(s);
    let ghost mut k: nat = 0;
    let mut done = false;
    while !done
        invariant
            dv == defines_view(defines@),
            settled_after(s@, dv, n0),
            k <= n0,
            cur@ == substitution_iterate(s@, dv, k),
            done ==> settled_after(s@, dv, k),
        decreases n0 - k, if done { 0int } else { 1int },
    {
        let (next, changed) = substitution_pass_of(&cur, defines);
        if !changed {
            proof {
                lemma_pass_unchanged(cur@, 0, dv);
                assert(cur@.skip(0) =~= cur@);
            }
            done = true;
        } else {
            proof {
                if k == n0 {
                    assert(false);
                }
                k = k + 1;
            }
            cur = next;
        }
    }
    proof {
        lemma_substitute_is(s@, dv, k);
    }
    string_from_chars(&cur, 0, cur.len())
}


/// Whether substitution on the string comes to an end within
/// `max_passes` passes.
pub fn substitution_settles_within(s: &str, defines: &Vec<(String, String)>, max_passes: usize) -> (r: bool)
    ensures
        r == exists|n: nat| n < max_passes && settled_after(s@, defines_view(defines@), n),
        r ==> substitution_settles(s@, defines_view(defines@)),
{
    let ghost dv = defines_view(defines@);
    let mut cur = str_chars(s);
    let mut k: usize = 0;
    while k < max_passes
        invariant
            dv == defines_view(defines@),
            k <= max_passes,
            cur@ == substitution_iterate(s@, dv, k as nat),
            forall|n: nat| n < k ==> !settled_after(s@, dv, n),
        decreases max_passes - k,
    {
        let (next, changed) = substitution_pass_of(&cur, defines);
        if !changed {
            proof {
                assert(settled_after(s@, dv, k as nat));
            }
            return true;
        }
        cur = next;
        k = k + 1;
    }
    false
}

/// The text of a present string, or the default.
pub open spec fn opt_or(o: Option<String>, dflt: Seq<char>) -> Seq<char> {
    match o {
        Some(x) => x@,
        None => dflt,
    }
}

/// The text of an optional string.
pub open spec fn opt_view(o: Option<String>) -> Option<Seq<char>> {
    match o {
        Some(x) => Some(x@),
        None => None,
    }
}

/// A present string after substitution, or the default.
pub open spec fn opt_substitute(o: Option<String>, dflt: Seq<char>, dv: Defines) -> Seq<char> {
    match o {
        Some(x) => spec_substitute(x@, dv),
        None => dflt,
    }
}

/// An optional string after substitution.
pub open spec fn opt_substitute_keep(o: Option<String>, dv: Defines) -> Option<Seq<char>> {
    match o {
        Some(x) => Some(spec_substitute(x@, dv)),
        None => None,
    }
}

/// Substitution on an optional string comes to an end.
pub open spec fn opt_settles(o: Option<String>, dv: Defines) -> bool {
    match o {
        Some(x) => substitution_settles(x@, dv),
        None => true,
    }
}

/// The variables that a configuration file defines.
pub open spec fn toml_defines(t: TomlServerConfig) -> Defines {
    match t.defines {
        Some(d) => defines_view(d@),
        None => Seq::empty(),
    }
}

/// A bind after substitution in its address, port and TLS profile.
pub open spec fn bind_processed(o: BindConfig, i: BindConfig, dv: Defines) -> bool {
    &&& opt_view(o.address) == opt_substitute_keep(i.address, dv)
    &&& opt_view(o.port) == opt_substitute_keep(i.port, dv)
    &&& opt_view(o.sslprofile) == opt_substitute_keep(i.sslprofile, dv)
    &&& o.bind_type == i.bind_type
    &&& o.defer == i.defer
    &&& o.free == i.free
    &&& o.path == i.path
    &&& o.permissions == i.permissions
    &&& o.replace == i.replace
    &&& o.hook == i.hook
}

/// Each bind after substitution, in order.
pub open spec fn binds_processed(o: Seq<BindConfig>, i: Seq<BindConfig>, dv: Defines) -> bool {
    o.len() == i.len() && forall|k: int| 0 <= k < o.len() ==> bind_processed(#[trigger] o[k], i[k], dv)
}

/// Substitution comes to an end in every bind.
pub open spec fn binds_settle(b: Seq<BindConfig>, dv: Defines) -> bool {
    forall|k: int|
        0 <= k < b.len() ==> opt_settles(#[trigger] b[k].address, dv) && opt_settles(b[k].port, dv)
            && opt_settles(b[k].sslprofile, dv)
}

/// A connect class after substitution in its allow, deny and reason.
pub open spec fn connect_processed(o: ConnectClassConfig, i: ConnectClassConfig, dv: Defines) -> bool {
    &&& opt_view(o.allow) == opt_substitute_keep(i.allow, dv)
    &&& opt_view(o.deny) == opt_substitute_keep(i.deny, dv)
    &&& opt_view(o.reason) == opt_substitute_keep(i.reason, dv)
    &&& o.name == i.name
    &&& o.parent == i.parent
    &&& o.hash == i.hash
    &&& o.password == i.password
    &&& o.maxchans == i.maxchans
    &&& o.timeout == i.timeout
    &&& o.localmax == i.localmax
    &&& o.globalmax == i.globalmax
    &&& o.maxconnwarn == i.maxconnwarn
    &&& o.resolvehostnames == i.resolvehostnames
    &&& o.useconnectban == i.useconnectban
    &&& o.useconnflood == i.useconnflood
}

/// Each connect class after substitution, in order.
pub open spec fn connects_processed(o: Seq<ConnectClassConfig>, i: Seq<ConnectClassConfig>, dv: Defines) -> bool {
    o.len() == i.len() && forall|k: int| 0 <= k < o.len() ==> connect_processed(#[trigger] o[k], i[k], dv)
}

/// Substitution comes to an end in every connect class.
pub open spec fn connects_settle(c: Seq<ConnectClassConfig>, dv: Defines) -> bool {
    forall|k: int|
        0 <= k < c.len() ==> opt_settles(#[trigger] c[k].allow, dv) && opt_settles(c[k].deny, dv)
            && opt_settles(c[k].reason, dv)
}

/// The names of the modules that have one, after substitution, in order.
pub open spec fn module_names(m: Seq<ModuleConfig>, dv: Defines) -> Seq<Seq<char>>
    decreases m.len(),
{
    if m.len() == 0 {
        Seq::empty()
    } else {
        let init = module_names(m.drop_last(), dv);
        match m.last().name {
            Some(n) => init.push(spec_substitute(n@, dv)),
            None => init,
        }
    }
}

/// Substitution comes to an end in every module name.
pub open spec fn modules_settle(m: Seq<ModuleConfig>, dv: Defines) -> bool {
    forall|k: int| 0 <= k < m.len() ==> opt_settles(#[trigger] m[k].name, dv)
}

/// The texts of a list of strings.
pub open spec fn strings_view(v: Seq<String>) -> Seq<Seq<char>> {
    Seq::new(v.len(), |i: int| v[i]@)
}

/// How a configuration flag reads: empty gives the default; yes, true and
/// on (in any case) give true; no, false and off give false; anything else
/// gives the default.
pub open spec fn spec_toml_bool(value: Seq<char>, default: bool) -> bool {
    if value.len() == 0 {
        default
    } else {
        bool_word(unicode_lowercase(value), default)
    }
}

/// Parses a configuration flag.
pub fn parse_bool(value: &str, default: bool) -> (r: bool)
    ensures
        r == spec_toml_bool(value@, default),
{
    if value.is_empty() {
        return default;
    }
    let l = to_lowercase(value);
    bool_from_word(l.as_str(), default)
}

fn substitute_opt(o: Option<String>, defines: &Vec<(String, String)>) -> (r: Option<String>)
    requires
        opt_settles(o, defines_view(defines@)),
    ensures
        opt_view(r) == opt_substitute_keep(o, defines_view(defines@)),
{
    match o {
        Some(x) => Some(apply_variable_substitution(x.as_str(), defines)),
        None => None,
    }
}

fn process_binds(bs: Vec<BindConfig>, defines: &Vec<(String, String)>) -> (r: Vec<BindConfig>)
    requires
        binds_settle(bs@, defines_view(defines@)),
    ensures
        binds_processed(r@, bs@, defines_view(defines@)),
{
    let ghost dv = defines_view(defines@);
    let ghost orig = bs@;
    let mut rest = bs;
    let mut out: Vec<BindConfig> = Vec::new();
    while rest.len() > 0
        invariant
            dv == defines_view(defines@),
            out@.len() + rest@.len() == orig.len(),
            rest@ == orig.skip(out@.len() as int),
            binds_settle(orig, dv),
            forall|k: int| 0 <= k < out@.len() ==> bind_processed(#[trigger] out@[k], orig[k], dv),
        decreases rest@.len(),
    {
        let ghost k = out@.len() as int;
        let b = rest.remove(0);
        proof {
            assert(b == orig[k]);
            assert(rest@ =~= orig.skip(k + 1));
        }
        let BindConfig { address, port, bind_type, sslprofile, defer, free, path, permissions, replace, hook } = b;
        let nb = BindConfig {
            address: substitute_opt(address, defines),
            port: substitute_opt(port, defines),
            bind_type,
            sslprofile: substitute_opt(sslprofile, defines),
            defer,
            free,
            path,
            permissions,
            replace,
            hook,
        };
        out.push(nb);
    }
    out
}

fn process_connects(cs: Vec<ConnectClassConfig>, defines: &Vec<(String, String)>) -> (r: Vec<ConnectClassConfig>)
    requires
        connects_settle(cs@, defines_view(defines@)),
    ensures
        connects_processed(r@, cs@, defines_view(defines@)),
{
    let ghost dv = defines_view(defines@);
    let ghost orig = cs@;
    let mut rest = cs;
    let mut out: Vec<ConnectClassConfig> = Vec::new();
    while rest.len() > 0
        invariant
            dv == defines_view(defines@),
            out@.len() + rest@.len() == orig.len(),
            rest@ == orig.skip(out@.len() as int),
            connects_settle(orig, dv),
            forall|k: int| 0 <= k < out@.len() ==> connect_processed(#[trigger] out@[k], orig[k], dv),
        decreases rest@.len(),
    {
        let ghost k = out@.len() as int;
        let c = rest.remove(0);
        proof {
            assert(c == orig[k]);
            assert(rest@ =~= orig.skip(k + 1));
        }
        let ConnectClassConfig {
            name,
            parent,
            allow,
            deny,
            reason,
            hash,
            password,
            maxchans,
            timeout,
            localmax,
            globalmax,
            maxconnwarn,
            resolvehostnames,
            useconnectban,
            useconnflood,
        } = c;
        let nc = ConnectClassConfig {
            name,
            parent,
            allow: substitute_opt(allow, defines),
            deny: substitute_opt(deny, defines),
            reason: substitute_opt(reason, defines),
            hash,
            password,
            maxchans,
            timeout,
            localmax,
            globalmax,
            maxconnwarn,
            resolvehostnames,
            useconnectban,
            useconnflood,
        };
        out.push(nc);
    }
    out
}

fn process_modules(ms: Vec<ModuleConfig>, defines: &Vec<(String, String)>) -> (r: Vec<String>)
    requires
        modules_settle(ms@, defines_view(defines@)),
    ensures
        strings_view(r@) == module_names(ms@, defines_view(defines@)),
{
    let ghost dv = defines_view(defines@);
    let ghost orig = ms@;
    let mut rest = ms;
    let mut out: Vec<String> = Vec::new();
    let ghost mut k: int = 0;
    while rest.len() > 0
        invariant
            dv == defines_view(defines@),
            0 <= k <= orig.len(),
            rest@ == orig.skip(k),
            modules_settle(orig, dv),
            strings_view(out@) == module_names(orig.take(k), dv),
        decreases rest@.len(),
    {
        let m = rest.remove(0);
        proof {
            assert(m == orig[k]);
            assert(rest@ =~= orig.skip(k + 1));
            assert(orig.take(k + 1).drop_last() =~= orig.take(k));
            assert(orig.take(k + 1).last() == m);
            assert(opt_settles(orig[k].name, dv));
        }
        let ghost before = strings_view(out@);
        match m.name {
            Some(n) => {
                let s = apply_variable_substitution(n.as_str(), defines);
                out.push(s);
                proof {
                    assert(strings_view(out@) =~= before.push(spec_substitute(n@, dv)));
                }
            },
            None => {},
        }
        proof {
            k = k + 1;
        }
    }
    proof {
        assert(orig.take(k) =~= orig);
    }
    out
}

/// The server configuration built from a configuration file.
pub struct ParsedServerConfig {
    pub server_name: String,
    pub server_id: String,
    pub server_desc: String,
    pub network: String,
    pub admin_name: String,
    pub admin_desc: String,
    pub admin_email: String,
    pub default_modes: String,
    pub mask_in_list: bool,
    pub mask_in_topic: bool,
    pub no_snotice_stack: bool,
    pub syntax_hints: bool,
    pub xline_message: String,
    pub xline_quit: String,
    pub xline_quit_public: String,
    pub restrict_banned_users: String,
    pub wildcard_ipv6: bool,
    pub max_conn: i32,
    pub net_buffer_size: usize,
    pub soft_limit: usize,
    pub time_skip_warn: u64,
    pub custom_version: String,
    pub hide_server: String,
    pub max_targets: usize,
    pub ipv4_range: u8,
    pub ipv6_range: u8,
    pub max_line: usize,
    pub max_nick: usize,
    pub max_channel: usize,
    pub max_modes: usize,
    pub max_user: usize,
    pub max_quit: usize,
    pub max_topic: usize,
    pub max_kick: usize,
    pub max_real: usize,
    pub max_away: usize,
    pub max_host: usize,
    pub max_key: usize,
    pub config_path: String,
    pub data_path: String,
    pub log_path: String,
    pub modules_path: String,
    pub runtime_path: String,
    pub binds: Vec<BindConfig>,
    pub connect_classes: Vec<ConnectClassConfig>,
    pub modules: Vec<String>,
    pub defines: Vec<(String, String)>,
    pub valid: bool,
    pub config_file_name: String,
}

/// Whether a configuration holds the defaults: the built-in values of
/// every setting, no binds, connect classes, modules or variables, not
/// valid, and no file name.
pub open spec fn is_default_config(c: ParsedServerConfig) -> bool {
    &&& c.server_name@.len() == 0
    &&& c.server_id@.len() == 0
    &&& c.server_desc@.len() == 0
    &&& c.network@.len() == 0
    &&& c.admin_name@.len() == 0
    &&& c.admin_desc@.len() == 0
    &&& c.admin_email@.len() == 0
    &&& c.default_modes@ == "not"@
    &&& c.mask_in_list == false
    &&& c.mask_in_topic == false
    &&& c.no_snotice_stack == false
    &&& c.syntax_hints == false
    &&& c.xline_message@ == "You're banned!"@
    &&& c.xline_quit@ == "%fulltype%: %reason%"@
    &&& c.xline_quit_public@.len() == 0
    &&& c.restrict_banned_users@ == "yes"@
    &&& c.wildcard_ipv6 == true
    &&& c.max_conn == 128
    &&& c.net_buffer_size == 10240
    &&& c.soft_limit == 1024
    &&& c.time_skip_warn == 2
    &&& c.custom_version@.len() == 0
    &&& c.hide_server@.len() == 0
    &&& c.max_targets == 5
    &&& c.ipv4_range == 32
    &&& c.ipv6_range == 128
    &&& c.max_line == 512
    &&& c.max_nick == 30
    &&& c.max_channel == 60
    &&& c.max_modes == 20
    &&& c.max_user == 10
    &&& c.max_quit == 300
    &&& c.max_topic == 330
    &&& c.max_kick == 300
    &&& c.max_real == 130
    &&& c.max_away == 200
    &&& c.max_host == 64
    &&& c.max_key == 32
    &&& c.config_path@ == "./run/conf"@
    &&& c.data_path@ == "./run/data"@
    &&& c.log_path@ == "./run/logs"@
    &&& c.modules_path@ == "./run/modules"@
    &&& c.runtime_path@ == "./run/data"@
    &&& c.binds@.len() == 0
    &&& c.connect_classes@.len() == 0
    &&& c.modules@.len() == 0
    &&& c.defines@.len() == 0
    &&& c.valid == false
    &&& c.config_file_name@.len() == 0
}

impl Default for ParsedServerConfig {
    fn default() -> (r: Self)
        ensures
            is_default_config(r),
    {
        let r = ParsedServerConfig {
            server_name: String::new(),
            server_id: String::new(),
            server_desc: String::new(),
            network: String::new(),
            admin_name: String::new(),
            admin_desc: String::new(),
            admin_email: String::new(),
            default_modes: String::from_str("not"),
            mask_in_list: false,
            mask_in_topic: false,
            no_snotice_stack: false,
            syntax_hints: false,
            xline_message: String::from_str("You're banned!"),
            xline_quit: String::from_str("%fulltype%: %reason%"),
            xline_quit_public: String::new(),
            restrict_banned_users: String::from_str("yes"),
            wildcard_ipv6: true,
            max_conn: 128,
            net_buffer_size: 10240,
            soft_limit: 1024,
            time_skip_warn: 2,
            custom_version: String::new(),
            hide_server: String::new(),
            max_targets: 5,
            ipv4_range: 32,
            ipv6_range: 128,
            max_line: 512,
            max_nick: 30,
            max_channel: 60,
            max_modes: 20,
            max_user: 10,
            max_quit: 300,
            max_topic: 330,
            max_kick: 300,
            max_real: 130,
            max_away: 200,
            max_host: 64,
            max_key: 32,
            config_path: String::from_str("./run/conf"),
            data_path: String::from_str("./run/data"),
            log_path: String::from_str("./run/logs"),
            modules_path: String::from_str("./run/modules"),
            runtime_path: String::from_str("./run/data"),
            binds: Vec::new(),
            connect_classes: Vec::new(),
            modules: Vec::new(),
            defines: Vec::new(),
            valid: false,
            config_file_name: String::new(),
        };
        proof {
            reveal_strlit("not");
            reveal_strlit("You're banned!");
            reveal_strlit("%fulltype%: %reason%");
            reveal_strlit("yes");
            reveal_strlit("./run/conf");
            reveal_strlit("./run/data");
            reveal_strlit("./run/logs");
            reveal_strlit("./run/modules");
            reveal_strlit("./run/data");
        }
        r
    }
}

fn server_settings(sec: Option<ServerConfig>, defines: &Vec<(String, String)>) -> (r: (String, String, String, String))
    requires
        match sec { Some(x) => opt_settles(x.name, defines_view(defines@)), None => true },
        match sec { Some(x) => opt_settles(x.description, defines_view(defines@)), None => true },
        match sec { Some(x) => opt_settles(x.network, defines_view(defines@)), None => true },
    ensures
        r.0@ == (match sec { Some(x) => opt_substitute(x.name, Seq::<char>::empty(), defines_view(defines@)), None => Seq::<char>::empty() }),
        r.1@ == (match sec { Some(x) => opt_or(x.id, Seq::<char>::empty()), None => Seq::<char>::empty() }),
        r.2@ == (match sec { Some(x) => opt_substitute(x.description, Seq::<char>::empty(), defines_view(defines@)), None => Seq::<char>::empty() }),
        r.3@ == (match sec { Some(x) => opt_substitute(x.network, Seq::<char>::empty(), defines_view(defines@)), None => Seq::<char>::empty() }),
{
    let mut server_name = String::new();
    let mut server_id = String::new();
    let mut server_desc = String::new();
    let mut network = String::new();
    match sec {
        Some(x) => {
            match x.name {
                Some(v) => {
                    server_name = apply_variable_substitution(v.as_str(), defines);
                },
                None => {},
            }
            match x.id {
                Some(v) => {
                    server_id = v;
                },
                None => {},
            }
            match x.description {
                Some(v) => {
                    server_desc = apply_variable_substitution(v.as_str(), defines);
                },
                None => {},
            }
            match x.network {
                Some(v) => {
                    network = apply_variable_substitution(v.as_str(), defines);
                },
                None => {},
            }
        },
        None => {},
    }
    proof {
    }
    (server_name, server_id, server_desc, network)
}

fn admin_settings(sec: Option<AdminConfig>, defines: &Vec<(String, String)>) -> (r: (String, String, String))
    requires
        match sec { Some(x) => opt_settles(x.name, defines_view(defines@)), None => true },
        match sec { Some(x) => opt_settles(x.description, defines_view(defines@)), None => true },
        match sec { Some(x) => opt_settles(x.email, defines_view(defines@)), None => true },
    ensures
        r.0@ == (match sec { Some(x) => opt_substitute(x.name, Seq::<char>::empty(), defines_view(defines@)), None => Seq::<char>::empty() }),
        r.1@ == (match sec { Some(x) => opt_substitute(x.description, Seq::<char>::empty(), defines_view(defines@)), None => Seq::<char>::empty() }),
        r.2@ == (match sec { Some(x) => opt_substitute(x.email, Seq::<char>::empty(), defines_view(defines@)), None => Seq::<char>::empty() }),
{
    let mut admin_name = String::new();
    let mut admin_desc = String::new();
    let mut admin_email = String::new();
    match sec {
        Some(x) => {
            match x.name {
                Some(v) => {
                    admin_name = apply_variable_substitution(v.as_str(), defines);
                },
                None => {},
            }
            match x.description {
                Some(v) => {
                    admin_desc = apply_variable_substitution(v.as_str(), defines);
                },
                None => {},
            }
            match x.email {
                Some(v) => {
                    admin_email = apply_variable_substitution(v.as_str(), defines);
                },
                None => {},
            }
        },
        None => {},
    }
    proof {
    }
    (admin_name, admin_desc, admin_email)
}

fn options_settings(sec: Option<OptionsConfig>, defines: &Vec<(String, String)>) -> (r: (String, bool, bool, bool, String, String, String, bool, bool))
    requires
        match sec { Some(x) => opt_settles(x.defaultmodes, defines_view(defines@)), None => true },
        match sec { Some(x) => opt_settles(x.xlinemessage, defines_view(defines@)), None => true },
        match sec { Some(x) => opt_settles(x.xlinequit, defines_view(defines@)), None => true },
    ensures
        r.0@ == (match sec { Some(x) => opt_substitute(x.defaultmodes, "not"@, defines_view(defines@)), None => "not"@ }),
        r.1 == (match sec { Some(x) => match x.maskinlist { Some(v) => v, None => false }, None => false }),
        r.2 == (match sec { Some(x) => match x.nosnoticestack { Some(v) => v, None => false }, None => false }),
        r.3 == (match sec { Some(x) => match x.syntaxhints { Some(v) => v, None => false }, None => false }),
        r.4@ == (match sec { Some(x) => opt_substitute(x.xlinemessage, "You're banned!"@, defines_view(defines@)), None => "You're banned!"@ }),
        r.5@ == (match sec { Some(x) => opt_substitute(x.xlinequit, "%fulltype%: %reason%"@, defines_view(defines@)), None => "%fulltype%: %reason%"@ }),
        r.6@ == (match sec { Some(x) => opt_or(x.restrictbannedusers, "yes"@), None => "yes"@ }),
        r.7 == (match sec { Some(x) => match x.maskintopic { Some(v) => v, None => match x.hostintopic { Some(h) => h, None => false } }, None => false }),
        r.8 == (match sec { Some(x) => match x.defaultbind { Some(b) => spec_toml_bool(b@, true), None => true }, None => true }),
{
    let mut default_modes = String::from_str("not");
    let mut mask_in_list = false;
    let mut no_snotice_stack = false;
    let mut syntax_hints = false;
    let mut xline_message = String::from_str("You're banned!");
    let mut xline_quit = String::from_str("%fulltype%: %reason%");
    let mut restrict_banned_users = String::from_str("yes");
    let mut mask_in_topic = false;
    let mut wildcard_ipv6 = true;
    match sec {
        Some(x) => {
            match x.defaultmodes {
                Some(v) => {
                    default_modes = apply_variable_substitution(v.as_str(), defines);
                },
                None => {},
            }
            mask_in_list = match x.maskinlist {
                Some(v) => v,
                None => false,
            };
            no_snotice_stack = match x.nosnoticestack {
                Some(v) => v,
                None => false,
            };
            syntax_hints = match x.syntaxhints {
                Some(v) => v,
                None => false,
            };
            match x.xlinemessage {
                Some(v) => {
                    xline_message = apply_variable_substitution(v.as_str(), defines);
                },
                None => {},
            }
            match x.xlinequit {
                Some(v) => {
                    xline_quit = apply_variable_substitution(v.as_str(), defines);
                },
                None => {},
            }
            match x.restrictbannedusers {
                Some(v) => {
                    restrict_banned_users = v;
                },
                None => {},
            }
            mask_in_topic = match x.maskintopic {
                Some(v) => v,
                None => match x.hostintopic {
                    Some(h) => h,
                    None => false,
                },
            };
            match x.defaultbind {
                Some(b) => {
                    wildcard_ipv6 = parse_bool(b.as_str(), true);
                },
                None => {},
            }
        },
        None => {},
    }
    proof {
        reveal_strlit("not");
        reveal_strlit("You're banned!");
        reveal_strlit("%fulltype%: %reason%");
        reveal_strlit("yes");
    }
    (default_modes, mask_in_list, no_snotice_stack, syntax_hints, xline_message, xline_quit, restrict_banned_users, mask_in_topic, wildcard_ipv6)
}

fn limits_settings(sec: Option<LimitsConfig>, defines: &Vec<(String, String)>) -> (r: (usize, usize, usize, usize, usize, usize, usize, usize, usize, usize, usize, usize))
    ensures
        r.0 == (match sec { Some(x) => match x.maxline { Some(v) => v, None => 512 }, None => 512 }),
        r.1 == (match sec { Some(x) => match x.maxnick { Some(v) => v, None => 30 }, None => 30 }),
        r.2 == (match sec { Some(x) => match x.maxchan { Some(v) => v, None => 60 }, None => 60 }),
        r.3 == (match sec { Some(x) => match x.maxmodes { Some(v) => v, None => 20 }, None => 20 }),
        r.4 == (match sec { Some(x) => match x.maxuser { Some(v) => v, None => 10 }, None => 10 }),
        r.5 == (match sec { Some(x) => match x.maxquit { Some(v) => v, None => 300 }, None => 300 }),
        r.6 == (match sec { Some(x) => match x.maxtopic { Some(v) => v, None => 330 }, None => 330 }),
        r.7 == (match sec { Some(x) => match x.maxkick { Some(v) => v, None => 300 }, None => 300 }),
        r.8 == (match sec { Some(x) => match x.maxreal { Some(v) => v, None => 130 }, None => 130 }),
        r.9 == (match sec { Some(x) => match x.maxaway { Some(v) => v, None => 200 }, None => 200 }),
        r.10 == (match sec { Some(x) => match x.maxhost { Some(v) => v, None => 64 }, None => 64 }),
        r.11 == (match sec { Some(x) => match x.maxkey { Some(v) => v, None => 32 }, None => 32 }),
{
    let mut max_line: usize = 512;
    let mut max_nick: usize = 30;
    let mut max_channel: usize = 60;
    let mut max_modes: usize = 20;
    let mut max_user: usize = 10;
    let mut max_quit: usize = 300;
    let mut max_topic: usize = 330;
    let mut max_kick: usize = 300;
    let mut max_real: usize = 130;
    let mut max_away: usize = 200;
    let mut max_host: usize = 64;
    let mut max_key: usize = 32;
    match sec {
        Some(x) => {
            max_line = match x.maxline {
                Some(v) => v,
                None => 512,
            };
            max_nick = match x.maxnick {
                Some(v) => v,
                None => 30,
            };
            max_channel = match x.maxchan {
                Some(v) => v,
                None => 60,
            };
            max_modes = match x.maxmodes {
                Some(v) => v,
                None => 20,
            };
            max_user = match x.maxuser {
                Some(v) => v,
                None => 10,
            };
            max_quit = match x.maxquit {
                Some(v) => v,
                None => 300,
            };
            max_topic = match x.maxtopic {
                Some(v) => v,
                None => 330,
            };
            max_kick = match x.maxkick {
                Some(v) => v,
                None => 300,
            };
            max_real = match x.maxreal {
                Some(v) => v,
                None => 130,
            };
            max_away = match x.maxaway {
                Some(v) => v,
                None => 200,
            };
            max_host = match x.maxhost {
                Some(v) => v,
                None => 64,
            };
            max_key = match x.maxkey {
                Some(v) => v,
                None => 32,
            };
        },
        None => {},
    }
    proof {
    }
    (max_line, max_nick, max_channel, max_modes, max_user, max_quit, max_topic, max_kick, max_real, max_away, max_host, max_key)
}

fn paths_settings(sec: Option<PathsConfig>, defines: &Vec<(String, String)>) -> (r: (String, String, String, String, String))
    requires
        match sec { Some(x) => opt_settles(x.configdir, defines_view(defines@)), None => true },
        match sec { Some(x) => opt_settles(x.datadir, defines_view(defines@)), None => true },
        match sec { Some(x) => opt_settles(x.logdir, defines_view(defines@)), None => true },
        match sec { Some(x) => opt_settles(x.moduledir, defines_view(defines@)), None => true },
        match sec { Some(x) => opt_settles(x.runtimedir, defines_view(defines@)), None => true },
    ensures
        r.0@ == (match sec { Some(x) => opt_substitute(x.configdir, "./run/conf"@, defines_view(defines@)), None => "./run/conf"@ }),
        r.1@ == (match sec { Some(x) => opt_substitute(x.datadir, "./run/data"@, defines_view(defines@)), None => "./run/data"@ }),
        r.2@ == (match sec { Some(x) => opt_substitute(x.logdir, "./run/logs"@, defines_view(defines@)), None => "./run/logs"@ }),
        r.3@ == (match sec { Some(x) => opt_substitute(x.moduledir, "./run/modules"@, defines_view(defines@)), None => "./run/modules"@ }),
        r.4@ == (match sec { Some(x) => opt_substitute(x.runtimedir, "./run/data"@, defines_view(defines@)), None => "./run/data"@ }),
{
    let mut config_path = String::from_str("./run/conf");
    let mut data_path = String::from_str("./run/data");
    let mut log_path = String::from_str("./run/logs");
    let mut modules_path = String::from_str("./run/modules");
    let mut runtime_path = String::from_str("./run/data");
    match sec {
        Some(x) => {
            match x.configdir {
                Some(v) => {
                    config_path = apply_variable_substitution(v.as_str(), defines);
                },
                None => {},
            }
            match x.datadir {
                Some(v) => {
                    data_path = apply_variable_substitution(v.as_str(), defines);
                },
                None => {},
            }
            match x.logdir {
                Some(v) => {
                    log_path = apply_variable_substitution(v.as_str(), defines);
                },
                None => {},
            }
            match x.moduledir {
                Some(v) => {
                    modules_path = apply_variable_substitution(v.as_str(), defines);
                },
                None => {},
            }
            match x.runtimedir {
                Some(v) => {
                    runtime_path = apply_variable_substitution(v.as_str(), defines);
                },
                None => {},
            }
        },
        None => {},
    }
    proof {
        reveal_strlit("./run/conf");
        reveal_strlit("./run/data");
        reveal_strlit("./run/logs");
        reveal_strlit("./run/modules");
        reveal_strlit("./run/data");
    }
    (config_path, data_path, log_path, modules_path, runtime_path)
}

fn performance_settings(sec: Option<PerformanceConfig>, defines: &Vec<(String, String)>) -> (r: (i32, usize, usize, u64))
    ensures
        r.0 == (match sec { Some(x) => match x.somaxconn { Some(v) => v, None => 128 }, None => 128 }),
        r.1 == (match sec { Some(x) => match x.netbuffersize { Some(v) => v, None => 10240 }, None => 10240 }),
        r.2 == (match sec { Some(x) => match x.softlimit { Some(v) => v, None => 1024 }, None => 1024 }),
        r.3 == (match sec { Some(x) => match x.timeskipwarn { Some(v) => v, None => 2 }, None => 2 }),
{
    let mut max_conn: i32 = 128;
    let mut net_buffer_size: usize = 10240;
    let mut soft_limit: usize = 1024;
    let mut time_skip_warn: u64 = 2;
    match sec {
        Some(x) => {
            max_conn = match x.somaxconn {
                Some(v) => v,
                None => 128,
            };
            net_buffer_size = match x.netbuffersize {
                Some(v) => v,
                None => 10240,
            };
            soft_limit = match x.softlimit {
                Some(v) => v,
                None => 1024,
            };
            time_skip_warn = match x.timeskipwarn {
                Some(v) => v,
                None => 2,
            };
        },
        None => {},
    }
    proof {
    }
    (max_conn, net_buffer_size, soft_limit, time_skip_warn)
}

fn security_settings(sec: Option<SecurityConfig>, defines: &Vec<(String, String)>) -> (r: (String, String, usize, String))
    requires
        match sec { Some(x) => opt_settles(x.customversion, defines_view(defines@)), None => true },
        match sec { Some(x) => opt_settles(x.hideserver, defines_view(defines@)), None => true },
        match sec { Some(x) => opt_settles(x.publicxlinequit, defines_view(defines@)), None => true },
    ensures
        r.0@ == (match sec { Some(x) => opt_substitute(x.customversion, Seq::<char>::empty(), defines_view(defines@)), None => Seq::<char>::empty() }),
        r.1@ == (match sec { Some(x) => opt_substitute(x.hideserver, Seq::<char>::empty(), defines_view(defines@)), None => Seq::<char>::empty() }),
        r.2 == (match sec { Some(x) => match x.maxtargets { Some(v) => v, None => 5 }, None => 5 }),
        r.3@ == (match sec { Some(x) => if x.hidebans == Some(true) { "%fulltype%"@ } else { opt_substitute(x.publicxlinequit, Seq::<char>::empty(), defines_view(defines@)) }, None => Seq::<char>::empty() }),
{
    let mut custom_version = String::new();
    let mut hide_server = String::new();
    let mut max_targets: usize = 5;
    let mut xline_quit_public = String::new();
    match sec {
        Some(x) => {
            match x.customversion {
                Some(v) => {
                    custom_version = apply_variable_substitution(v.as_str(), defines);
                },
                None => {},
            }
            match x.hideserver {
                Some(v) => {
                    hide_server = apply_variable_substitution(v.as_str(), defines);
                },
                None => {},
            }
            max_targets = match x.maxtargets {
                Some(v) => v,
                None => 5,
            };
            match x.publicxlinequit {
                Some(v) => {
                    xline_quit_public = apply_variable_substitution(v.as_str(), defines);
                },
                None => {},
            }
            match x.hidebans {
                Some(true) => {
                    xline_quit_public = String::from_str("%fulltype%");
                },
                _ => {},
            }
        },
        None => {},
    }
    proof {
        reveal_strlit("%fulltype%");
    }
    (custom_version, hide_server, max_targets, xline_quit_public)
}

fn cidr_settings(sec: Option<CidrConfig>, defines: &Vec<(String, String)>) -> (r: (u8, u8))
    ensures
        r.0 == (match sec { Some(x) => match x.ipv4clone { Some(v) => v, None => 32 }, None => 32 }),
        r.1 == (match sec { Some(x) => match x.ipv6clone { Some(v) => v, None => 128 }, None => 128 }),
{
    let mut ipv4_range: u8 = 32;
    let mut ipv6_range: u8 = 128;
    match sec {
        Some(x) => {
            ipv4_range = match x.ipv4clone {
                Some(v) => v,
                None => 32,
            };
            ipv6_range = match x.ipv6clone {
                Some(v) => v,
                None => 128,
            };
        },
        None => {},
    }
    proof {
    }
    (ipv4_range, ipv6_range)
}

/// Substitution comes to an end in every value of the configuration file
/// that undergoes it.
pub open spec fn toml_settles(toml: TomlServerConfig) -> bool {
    let dv = toml_defines(toml);
    &&& match toml.server { Some(x) => opt_settles(x.name, dv), None => true }
    &&& match toml.server { Some(x) => opt_settles(x.description, dv), None => true }
    &&& match toml.server { Some(x) => opt_settles(x.network, dv), None => true }
    &&& match toml.admin { Some(x) => opt_settles(x.name, dv), None => true }
    &&& match toml.admin { Some(x) => opt_settles(x.description, dv), None => true }
    &&& match toml.admin { Some(x) => opt_settles(x.email, dv), None => true }
    &&& match toml.options { Some(x) => opt_settles(x.defaultmodes, dv), None => true }
    &&& match toml.options { Some(x) => opt_settles(x.xlinemessage, dv), None => true }
    &&& match toml.options { Some(x) => opt_settles(x.xlinequit, dv), None => true }
    &&& match toml.paths { Some(x) => opt_settles(x.configdir, dv), None => true }
    &&& match toml.paths { Some(x) => opt_settles(x.datadir, dv), None => true }
    &&& match toml.paths { Some(x) => opt_settles(x.logdir, dv), None => true }
    &&& match toml.paths { Some(x) => opt_settles(x.moduledir, dv), None => true }
    &&& match toml.paths { Some(x) => opt_settles(x.runtimedir, dv), None => true }
    &&& match toml.security { Some(x) => opt_settles(x.customversion, dv), None => true }
    &&& match toml.security { Some(x) => opt_settles(x.hideserver, dv), None => true }
    &&& match toml.security { Some(x) => opt_settles(x.publicxlinequit, dv), None => true }
    &&& match toml.binds { Some(b) => binds_settle(b@, dv), None => true }
    &&& match toml.connect { Some(c) => connects_settle(c@, dv), None => true }
    &&& match toml.modules { Some(m) => modules_settle(m@, dv), None => true }
}

/// The configuration that a configuration file gives: the defaults,
/// overridden by the settings present in the file, with variable
/// references substituted where the file's values undergo it.
pub open spec fn spec_from_toml(r: ParsedServerConfig, path: &str, toml: TomlServerConfig) -> bool {
    let dv = toml_defines(toml);
    &&& r.server_name@ == (match toml.server { Some(x) => opt_substitute(x.name, Seq::<char>::empty(), dv), None => Seq::<char>::empty() })
    &&& r.server_id@ == (match toml.server { Some(x) => opt_or(x.id, Seq::<char>::empty()), None => Seq::<char>::empty() })
    &&& r.server_desc@ == (match toml.server { Some(x) => opt_substitute(x.description, Seq::<char>::empty(), dv), None => Seq::<char>::empty() })
    &&& r.network@ == (match toml.server { Some(x) => opt_substitute(x.network, Seq::<char>::empty(), dv), None => Seq::<char>::empty() })
    &&& r.admin_name@ == (match toml.admin { Some(x) => opt_substitute(x.name, Seq::<char>::empty(), dv), None => Seq::<char>::empty() })
    &&& r.admin_desc@ == (match toml.admin { Some(x) => opt_substitute(x.description, Seq::<char>::empty(), dv), None => Seq::<char>::empty() })
    &&& r.admin_email@ == (match toml.admin { Some(x) => opt_substitute(x.email, Seq::<char>::empty(), dv), None => Seq::<char>::empty() })
    &&& r.default_modes@ == (match toml.options { Some(x) => opt_substitute(x.defaultmodes, "not"@, dv), None => "not"@ })
    &&& r.mask_in_list == (match toml.options { Some(x) => match x.maskinlist { Some(v) => v, None => false }, None => false })
    &&& r.no_snotice_stack == (match toml.options { Some(x) => match x.nosnoticestack { Some(v) => v, None => false }, None => false })
    &&& r.syntax_hints == (match toml.options { Some(x) => match x.syntaxhints { Some(v) => v, None => false }, None => false })
    &&& r.xline_message@ == (match toml.options { Some(x) => opt_substitute(x.xlinemessage, "You're banned!"@, dv), None => "You're banned!"@ })
    &&& r.xline_quit@ == (match toml.options { Some(x) => opt_substitute(x.xlinequit, "%fulltype%: %reason%"@, dv), None => "%fulltype%: %reason%"@ })
    &&& r.restrict_banned_users@ == (match toml.options { Some(x) => opt_or(x.restrictbannedusers, "yes"@), None => "yes"@ })
    &&& r.max_line == (match toml.limits { Some(x) => match x.maxline { Some(v) => v, None => 512 }, None => 512 })
    &&& r.max_nick == (match toml.limits { Some(x) => match x.maxnick { Some(v) => v, None => 30 }, None => 30 })
    &&& r.max_channel == (match toml.limits { Some(x) => match x.maxchan { Some(v) => v, None => 60 }, None => 60 })
    &&& r.max_modes == (match toml.limits { Some(x) => match x.maxmodes { Some(v) => v, None => 20 }, None => 20 })
    &&& r.max_user == (match toml.limits { Some(x) => match x.maxuser { Some(v) => v, None => 10 }, None => 10 })
    &&& r.max_quit == (match toml.limits { Some(x) => match x.maxquit { Some(v) => v, None => 300 }, None => 300 })
    &&& r.max_topic == (match toml.limits { Some(x) => match x.maxtopic { Some(v) => v, None => 330 }, None => 330 })
    &&& r.max_kick == (match toml.limits { Some(x) => match x.maxkick { Some(v) => v, None => 300 }, None => 300 })
    &&& r.max_real == (match toml.limits { Some(x) => match x.maxreal { Some(v) => v, None => 130 }, None => 130 })
    &&& r.max_away == (match toml.limits { Some(x) => match x.maxaway { Some(v) => v, None => 200 }, None => 200 })
    &&& r.max_host == (match toml.limits { Some(x) => match x.maxhost { Some(v) => v, None => 64 }, None => 64 })
    &&& r.max_key == (match toml.limits { Some(x) => match x.maxkey { Some(v) => v, None => 32 }, None => 32 })
    &&& r.config_path@ == (match toml.paths { Some(x) => opt_substitute(x.configdir, "./run/conf"@, dv), None => "./run/conf"@ })
    &&& r.data_path@ == (match toml.paths { Some(x) => opt_substitute(x.datadir, "./run/data"@, dv), None => "./run/data"@ })
    &&& r.log_path@ == (match toml.paths { Some(x) => opt_substitute(x.logdir, "./run/logs"@, dv), None => "./run/logs"@ })
    &&& r.modules_path@ == (match toml.paths { Some(x) => opt_substitute(x.moduledir, "./run/modules"@, dv), None => "./run/modules"@ })
    &&& r.runtime_path@ == (match toml.paths { Some(x) => opt_substitute(x.runtimedir, "./run/data"@, dv), None => "./run/data"@ })
    &&& r.max_conn == (match toml.performance { Some(x) => match x.somaxconn { Some(v) => v, None => 128 }, None => 128 })
    &&& r.net_buffer_size == (match toml.performance { Some(x) => match x.netbuffersize { Some(v) => v, None => 10240 }, None => 10240 })
    &&& r.soft_limit == (match toml.performance { Some(x) => match x.softlimit { Some(v) => v, None => 1024 }, None => 1024 })
    &&& r.time_skip_warn == (match toml.performance { Some(x) => match x.timeskipwarn { Some(v) => v, None => 2 }, None => 2 })
    &&& r.custom_version@ == (match toml.security { Some(x) => opt_substitute(x.customversion, Seq::<char>::empty(), dv), None => Seq::<char>::empty() })
    &&& r.hide_server@ == (match toml.security { Some(x) => opt_substitute(x.hideserver, Seq::<char>::empty(), dv), None => Seq::<char>::empty() })
    &&& r.max_targets == (match toml.security { Some(x) => match x.maxtargets { Some(v) => v, None => 5 }, None => 5 })
    &&& r.ipv4_range == (match toml.cidr { Some(x) => match x.ipv4clone { Some(v) => v, None => 32 }, None => 32 })
    &&& r.ipv6_range == (match toml.cidr { Some(x) => match x.ipv6clone { Some(v) => v, None => 128 }, None => 128 })
    &&& r.mask_in_topic == (match toml.options { Some(x) => match x.maskintopic { Some(v) => v, None => match x.hostintopic { Some(h) => h, None => false } }, None => false })
    &&& r.wildcard_ipv6 == (match toml.options { Some(x) => match x.defaultbind { Some(b) => spec_toml_bool(b@, true), None => true }, None => true })
    &&& r.xline_quit_public@ == (match toml.security { Some(x) => if x.hidebans == Some(true) { "%fulltype%"@ } else { opt_substitute(x.publicxlinequit, Seq::<char>::empty(), dv) }, None => Seq::<char>::empty() })
    &&& binds_processed(r.binds@, match toml.binds { Some(b) => b@, None => Seq::empty() }, dv)
    &&& connects_processed(r.connect_classes@, match toml.connect { Some(c) => c@, None => Seq::empty() }, dv)
    &&& strings_view(r.modules@) == module_names(match toml.modules { Some(m) => m@, None => Seq::empty() }, dv)
    &&& defines_view(r.defines@) == dv
    &&& r.valid
    &&& r.config_file_name@ == path@
}

impl ParsedServerConfig {
    /// A configuration holding the defaults.
    pub fn new() -> (r: Self)
        ensures
            is_default_config(r),
    {
        Self::default()
    }

    /// Fills in default values; they are already in place, so nothing
    /// changes.
    pub fn fill_defaults(&mut self)
        ensures
            *final(self) == *old(self),
    {
    }

    /// Builds the configuration from a configuration file read from
    /// `path`.
    pub fn from_toml(path: &str, toml: TomlServerConfig) -> (r: Self)
        requires
            toml_settles(toml),
        ensures
            spec_from_toml(r, path, toml),
    {
        let TomlServerConfig {
            server,
            admin,
            binds,
            connect,
            limits,
            paths,
            performance,
            security,
            cidr,
            options,
            modules,
            sslprofiles,
            defines,
            dns,
            whowas,
            files,
            insane,
            badips,
            badnicks,
            badhosts,
            exceptions,
            maxlists,
        } = toml;
        let defs: Vec<(String, String)> = match defines {
            Some(d) => d,
            None => Vec::new(),
        };
        proof {
            assert(defines_view(defs@) =~= toml_defines(toml));
        }
        let (server_name, server_id, server_desc, network) = server_settings(server, &defs);
        let (admin_name, admin_desc, admin_email) = admin_settings(admin, &defs);
        let (default_modes, mask_in_list, no_snotice_stack, syntax_hints, xline_message, xline_quit, restrict_banned_users, mask_in_topic, wildcard_ipv6) = options_settings(options, &defs);
        let (max_line, max_nick, max_channel, max_modes, max_user, max_quit, max_topic, max_kick, max_real, max_away, max_host, max_key) = limits_settings(limits, &defs);
        let (config_path, data_path, log_path, modules_path, runtime_path) = paths_settings(paths, &defs);
        let (max_conn, net_buffer_size, soft_limit, time_skip_warn) = performance_settings(performance, &defs);
        let (custom_version, hide_server, max_targets, xline_quit_public) = security_settings(security, &defs);
        let (ipv4_range, ipv6_range) = cidr_settings(cidr, &defs);
        let binds = match binds {
            Some(bs) => process_binds(bs, &defs),
            None => Vec::new(),
        };
        let connect_classes = match connect {
            Some(cs) => process_connects(cs, &defs),
            None => Vec::new(),
        };
        let modules = match modules {
            Some(ms) => process_modules(ms, &defs),
            None => Vec::new(),
        };
        proof {
            assert(module_names(Seq::<ModuleConfig>::empty(), defines_view(defs@)) =~= Seq::<Seq<char>>::empty());
            assert(strings_view(modules@) =~= module_names(match toml.modules {
                Some(m) => m@,
                None => Seq::empty(),
            }, toml_defines(toml)));
        }
        ParsedServerConfig {
            server_name,
            server_id,
            server_desc,
            network,
            admin_name,
            admin_desc,
            admin_email,
            default_modes,
            mask_in_list,
            mask_in_topic,
            no_snotice_stack,
            syntax_hints,
            xline_message,
            xline_quit,
            xline_quit_public,
            restrict_banned_users,
            wildcard_ipv6,
            max_conn,
            net_buffer_size,
            soft_limit,
            time_skip_warn,
            custom_version,
            hide_server,
            max_targets,
            ipv4_range,
            ipv6_range,
            max_line,
            max_nick,
            max_channel,
            max_modes,
            max_user,
            max_quit,
            max_topic,
            max_kick,
            max_real,
            max_away,
            max_host,
            max_key,
            config_path,
            data_path,
            log_path,
            modules_path,
            runtime_path,
            binds,
            connect_classes,
            modules,
            defines: defs,
            valid: true,
            config_file_name: path.to_owned(),
        }
    }
}


/// Substitution on an optional string comes to an end within `max`
/// passes.
pub open spec fn opt_settles_within_spec(o: Option<String>, dv: Defines, max: nat) -> bool {
    match o {
        Some(x) => exists|n: nat| n < max && settled_after(x@, dv, n),
        None => true,
    }
}

fn opt_settles_within(o: &Option<String>, defines: &Vec<(String, String)>, max_passes: usize) -> (r: bool)
    ensures
        r == opt_settles_within_spec(*o, defines_view(defines@), max_passes as nat),
        r ==> opt_settles(*o, defines_view(defines@)),
{
    match o {
        Some(x) => substitution_settles_within(x.as_str(), defines, max_passes),
        None => true,
    }
}

/// Substitution in every value of the configuration file that undergoes
/// it comes to an end within `max` passes.
pub open spec fn toml_settles_within(toml: TomlServerConfig, max: nat) -> bool {
    let dv = toml_defines(toml);
    &&& match toml.server { Some(x) => opt_settles_within_spec(x.name, dv, max), None => true }
    &&& match toml.server { Some(x) => opt_settles_within_spec(x.description, dv, max), None => true }
    &&& match toml.server { Some(x) => opt_settles_within_spec(x.network, dv, max), None => true }
    &&& match toml.admin { Some(x) => opt_settles_within_spec(x.name, dv, max), None => true }
    &&& match toml.admin { Some(x) => opt_settles_within_spec(x.description, dv, max), None => true }
    &&& match toml.admin { Some(x) => opt_settles_within_spec(x.email, dv, max), None => true }
    &&& match toml.options { Some(x) => opt_settles_within_spec(x.defaultmodes, dv, max), None => true }
    &&& match toml.options { Some(x) => opt_settles_within_spec(x.xlinemessage, dv, max), None => true }
    &&& match toml.options { Some(x) => opt_settles_within_spec(x.xlinequit, dv, max), None => true }
    &&& match toml.paths { Some(x) => opt_settles_within_spec(x.configdir, dv, max), None => true }
    &&& match toml.paths { Some(x) => opt_settles_within_spec(x.datadir, dv, max), None => true }
    &&& match toml.paths { Some(x) => opt_settles_within_spec(x.logdir, dv, max), None => true }
    &&& match toml.paths { Some(x) => opt_settles_within_spec(x.moduledir, dv, max), None => true }
    &&& match toml.paths { Some(x) => opt_settles_within_spec(x.runtimedir, dv, max), None => true }
    &&& match toml.security { Some(x) => opt_settles_within_spec(x.customversion, dv, max), None => true }
    &&& match toml.security { Some(x) => opt_settles_within_spec(x.hideserver, dv, max), None => true }
    &&& match toml.security { Some(x) => opt_settles_within_spec(x.publicxlinequit, dv, max), None => true }
    &&& match toml.binds { Some(b) => forall|k: int| 0 <= k < b@.len() ==> opt_settles_within_spec(#[trigger] b@[k].address, dv, max) && opt_settles_within_spec(b@[k].port, dv, max) && opt_settles_within_spec(b@[k].sslprofile, dv, max), None => true }
    &&& match toml.connect { Some(c) => forall|k: int| 0 <= k < c@.len() ==> opt_settles_within_spec(#[trigger] c@[k].allow, dv, max) && opt_settles_within_spec(c@[k].deny, dv, max) && opt_settles_within_spec(c@[k].reason, dv, max), None => true }
    &&& match toml.modules { Some(m) => forall|k: int| 0 <= k < m@.len() ==> opt_settles_within_spec(#[trigger] m@[k].name, dv, max), None => true }
}

fn defines_of(toml: &TomlServerConfig) -> (r: Vec<(String, String)>)
    ensures
        defines_view(r@) == toml_defines(*toml),
{
    match &toml.defines {
        Some(d) => {
            let mut r: Vec<(String, String)> = Vec::new();
            let mut i: usize = 0;
            while i < d.len()
                invariant
                    i <= d@.len(),
                    r@.len() == i,
                    forall|k: int| 0 <= k < i ==> (#[trigger] r@[k]).0@ == d@[k].0@ && r@[k].1@ == d@[k].1@,
                decreases d.len() - i,
            {
                r.push((d[i].0.clone(), d[i].1.clone()));
                i = i + 1;
            }
            proof {
                assert(defines_view(r@) =~= defines_view(d@));
            }
            r
        },
        None => {
            let r: Vec<(String, String)> = Vec::new();
            proof {
                assert(defines_view(r@) =~= Seq::<(Seq<char>, Seq<char>)>::empty());
            }
            r
        },
    }
}

/// Whether substitution in every value of the configuration file that
/// undergoes it comes to an end within `max_passes` passes; where it
/// does, the configuration can be built.
pub fn toml_substitutions_settle(toml: &TomlServerConfig, max_passes: usize) -> (r: bool)
    ensures
        r == toml_settles_within(*toml, max_passes as nat),
        r ==> toml_settles(*toml),
{
    let defs = defines_of(toml);
    let ok = match &toml.server {
        Some(x) => opt_settles_within(&x.name, &defs, max_passes) && opt_settles_within(&x.description, &defs, max_passes) && opt_settles_within(&x.network, &defs, max_passes),
        None => true,
    };
    if !ok {
        return false;
    }
    let ok = match &toml.admin {
        Some(x) => opt_settles_within(&x.name, &defs, max_passes) && opt_settles_within(&x.description, &defs, max_passes) && opt_settles_within(&x.email, &defs, max_passes),
        None => true,
    };
    if !ok {
        return false;
    }
    let ok = match &toml.options {
        Some(x) => opt_settles_within(&x.defaultmodes, &defs, max_passes) && opt_settles_within(&x.xlinemessage, &defs, max_passes) && opt_settles_within(&x.xlinequit, &defs, max_passes),
        None => true,
    };
    if !ok {
        return false;
    }
    let ok = match &toml.paths {
        Some(x) => opt_settles_within(&x.configdir, &defs, max_passes) && opt_settles_within(&x.datadir, &defs, max_passes) && opt_settles_within(&x.logdir, &defs, max_passes) && opt_settles_within(&x.moduledir, &defs, max_passes) && opt_settles_within(&x.runtimedir, &defs, max_passes),
        None => true,
    };
    if !ok {
        return false;
    }
    let ok = match &toml.security {
        Some(x) => opt_settles_within(&x.customversion, &defs, max_passes) && opt_settles_within(&x.hideserver, &defs, max_passes) && opt_settles_within(&x.publicxlinequit, &defs, max_passes),
        None => true,
    };
    if !ok {
        return false;
    }
    match &toml.binds {
        Some(b) => {
            let mut i: usize = 0;
            while i < b.len()
                invariant
                    i <= b@.len(),
                    toml.binds == Some(*b),
                    defines_view(defs@) == toml_defines(*toml),
                    forall|k: int|
                        0 <= k < i ==> opt_settles_within_spec(#[trigger] b@[k].address, defines_view(defs@), max_passes as nat)
                            && opt_settles_within_spec(b@[k].port, defines_view(defs@), max_passes as nat)
                            && opt_settles_within_spec(b@[k].sslprofile, defines_view(defs@), max_passes as nat),
                    forall|k: int|
                        0 <= k < i ==> opt_settles(#[trigger] b@[k].address, defines_view(defs@))
                            && opt_settles(b@[k].port, defines_view(defs@)) && opt_settles(
                            b@[k].sslprofile,
                            defines_view(defs@),
                        ),
                decreases b.len() - i,
            {
                if !(opt_settles_within(&b[i].address, &defs, max_passes) && opt_settles_within(
                    &b[i].port,
                    &defs,
                    max_passes,
                ) && opt_settles_within(&b[i].sslprofile, &defs, max_passes)) {
                    proof {
                        assert(!(opt_settles_within_spec(b@[i as int].address, defines_view(defs@), max_passes as nat) && opt_settles_within_spec(b@[i as int].port, defines_view(defs@), max_passes as nat) && opt_settles_within_spec(b@[i as int].sslprofile, defines_view(defs@), max_passes as nat)));
                    }
                    return false;
                }
                i = i + 1;
            }
        },
        None => {},
    }
    match &toml.connect {
        Some(c) => {
            let mut i: usize = 0;
            while i < c.len()
                invariant
                    i <= c@.len(),
                    toml.connect == Some(*c),
                    defines_view(defs@) == toml_defines(*toml),
                    forall|k: int|
                        0 <= k < i ==> opt_settles_within_spec(#[trigger] c@[k].allow, defines_view(defs@), max_passes as nat)
                            && opt_settles_within_spec(c@[k].deny, defines_view(defs@), max_passes as nat)
                            && opt_settles_within_spec(c@[k].reason, defines_view(defs@), max_passes as nat),
                    forall|k: int|
                        0 <= k < i ==> opt_settles(#[trigger] c@[k].allow, defines_view(defs@))
                            && opt_settles(c@[k].deny, defines_view(defs@)) && opt_settles(
                            c@[k].reason,
                            defines_view(defs@),
                        ),
                decreases c.len() - i,
            {
                if !(opt_settles_within(&c[i].allow, &defs, max_passes) && opt_settles_within(
                    &c[i].deny,
                    &defs,
                    max_passes,
                ) && opt_settles_within(&c[i].reason, &defs, max_passes)) {
                    proof {
                        assert(!(opt_settles_within_spec(c@[i as int].allow, defines_view(defs@), max_passes as nat) && opt_settles_within_spec(c@[i as int].deny, defines_view(defs@), max_passes as nat) && opt_settles_within_spec(c@[i as int].reason, defines_view(defs@), max_passes as nat)));
                    }
                    return false;
                }
                i = i + 1;
            }
        },
        None => {},
    }
    match &toml.modules {
        Some(m) => {
            let mut i: usize = 0;
            while i < m.len()
                invariant
                    i <= m@.len(),
                    toml.modules == Some(*m),
                    defines_view(defs@) == toml_defines(*toml),
                    forall|k: int| 0 <= k < i ==> opt_settles_within_spec(#[trigger] m@[k].name, defines_view(defs@), max_passes as nat),
                    forall|k: int| 0 <= k < i ==> opt_settles(#[trigger] m@[k].name, defines_view(defs@)),
                decreases m.len() - i,
            {
                if !opt_settles_within(&m[i].name, &defs, max_passes) {
                    proof {
                        assert(!opt_settles_within_spec(m@[i as int].name, defines_view(defs@), max_passes as nat));
                    }
                    return false;
                }
                i = i + 1;
            }
        },
        None => {},
    }
    true
}

impl ParsedServerConfig {
    /// Builds the configuration from a configuration file read from
    /// `path`, where every substitution comes to an end within
    /// `max_passes` passes; `None` where one does not.
    pub fn try_from_toml(path: &str, toml: TomlServerConfig, max_passes: usize) -> (r: Option<Self>)
        ensures
            r is Some <==> toml_settles_within(toml, max_passes as nat),
            r matches Some(c) ==> spec_from_toml(c, path, toml),
    {
        if toml_substitutions_settle(&toml, max_passes) {
            Some(ParsedServerConfig::from_toml(path, toml))
        } else {
            None
        }
    }
}

/// The text setting named `field` (the paths under their configuration
/// names), if there is one of that name.
pub open spec fn toml_string_field(c: ParsedServerConfig, field: Seq<char>) -> Option<Seq<char>> {
    if field == "server_name"@ {
        Some(c.server_name@)
    } else if field == "server_id"@ {
        Some(c.server_id@)
    } else if field == "server_desc"@ {
        Some(c.server_desc@)
    } else if field == "network"@ {
        Some(c.network@)
    } else if field == "admin_name"@ {
        Some(c.admin_name@)
    } else if field == "admin_desc"@ {
        Some(c.admin_desc@)
    } else if field == "admin_email"@ {
        Some(c.admin_email@)
    } else if field == "default_modes"@ {
        Some(c.default_modes@)
    } else if field == "xline_message"@ {
        Some(c.xline_message@)
    } else if field == "xline_quit"@ {
        Some(c.xline_quit@)
    } else if field == "xline_quit_public"@ {
        Some(c.xline_quit_public@)
    } else if field == "custom_version"@ {
        Some(c.custom_version@)
    } else if field == "hide_server"@ {
        Some(c.hide_server@)
    } else if field == "restrict_banned_users"@ {
        Some(c.restrict_banned_users@)
    } else if field == "config_path"@ {
        Some(c.config_path@)
    } else if field == "data_path"@ {
        Some(c.data_path@)
    } else if field == "log_path"@ {
        Some(c.log_path@)
    } else if field == "module_path"@ {
        Some(c.modules_path@)
    } else if field == "runtime_path"@ {
        Some(c.runtime_path@)
    } else if field == "config_file_name"@ {
        Some(c.config_file_name@)
    } else {
        None
    }
}

/// The integer setting named `field` as a C `int` (wider values cut down
/// to 32 bits), if there is one of that name.
pub open spec fn toml_int_field(c: ParsedServerConfig, field: Seq<char>) -> Option<i32> {
    if field == "max_conn"@ {
        Some(c.max_conn)
    } else if field == "soft_limit"@ {
        Some(c.soft_limit as i32)
    } else if field == "max_targets"@ {
        Some(c.max_targets as i32)
    } else if field == "max_line"@ {
        Some(c.max_line as i32)
    } else if field == "max_nick"@ {
        Some(c.max_nick as i32)
    } else if field == "max_channel"@ {
        Some(c.max_channel as i32)
    } else if field == "max_modes"@ {
        Some(c.max_modes as i32)
    } else if field == "max_user"@ {
        Some(c.max_user as i32)
    } else if field == "max_quit"@ {
        Some(c.max_quit as i32)
    } else if field == "max_topic"@ {
        Some(c.max_topic as i32)
    } else if field == "max_kick"@ {
        Some(c.max_kick as i32)
    } else if field == "max_real"@ {
        Some(c.max_real as i32)
    } else if field == "max_away"@ {
        Some(c.max_away as i32)
    } else if field == "max_host"@ {
        Some(c.max_host as i32)
    } else if field == "max_key"@ {
        Some(c.max_key as i32)
    } else if field == "net_buffer_size"@ {
        Some(c.net_buffer_size as i32)
    } else if field == "ipv4_range"@ {
        Some(c.ipv4_range as i32)
    } else if field == "ipv6_range"@ {
        Some(c.ipv6_range as i32)
    } else {
        None
    }
}

/// The yes-or-no setting named `field`, if there is one of that name.
pub open spec fn toml_bool_field(c: ParsedServerConfig, field: Seq<char>) -> Option<bool> {
    if field == "mask_in_list"@ {
        Some(c.mask_in_list)
    } else if field == "mask_in_topic"@ {
        Some(c.mask_in_topic)
    } else if field == "no_snotice_stack"@ {
        Some(c.no_snotice_stack)
    } else if field == "syntax_hints"@ {
        Some(c.syntax_hints)
    } else if field == "wildcard_ipv6"@ {
        Some(c.wildcard_ipv6)
    } else if field == "valid"@ {
        Some(c.valid)
    } else {
        None
    }
}

/// The unsigned setting named `field`, if there is one of that name.
pub open spec fn toml_u64_field(c: ParsedServerConfig, field: Seq<char>) -> Option<u64> {
    if field == "time_skip_warn"@ {
        Some(c.time_skip_warn)
    } else if field == "soft_limit"@ {
        Some(c.soft_limit as u64)
    } else if field == "net_buffer_size"@ {
        Some(c.net_buffer_size as u64)
    } else {
        None
    }
}

impl ParsedServerConfig {
    /// The text setting named `field`.
    pub fn get_string(&self, field: &str) -> (r: Option<String>)
        ensures
            match toml_string_field(*self, field@) {
                Some(v) => r matches Some(s) && s@ == v,
                None => r is None,
            },
    {
        if str_equals(field, "server_name") {
            proof {
                reveal_strlit("server_name");
            }
            Some(self.server_name.clone())
        } else if str_equals(field, "server_id") {
            proof {
                reveal_strlit("server_id");
            }
            Some(self.server_id.clone())
        } else if str_equals(field, "server_desc") {
            proof {
                reveal_strlit("server_desc");
            }
            Some(self.server_desc.clone())
        } else if str_equals(field, "network") {
            proof {
                reveal_strlit("network");
            }
            Some(self.network.clone())
        } else if str_equals(field, "admin_name") {
            proof {
                reveal_strlit("admin_name");
            }
            Some(self.admin_name.clone())
        } else if str_equals(field, "admin_desc") {
            proof {
                reveal_strlit("admin_desc");
            }
            Some(self.admin_desc.clone())
        } else if str_equals(field, "admin_email") {
            proof {
                reveal_strlit("admin_email");
            }
            Some(self.admin_email.clone())
        } else if str_equals(field, "default_modes") {
            proof {
                reveal_strlit("default_modes");
            }
            Some(self.default_modes.clone())
        } else if str_equals(field, "xline_message") {
            proof {
                reveal_strlit("xline_message");
            }
            Some(self.xline_message.clone())
        } else if str_equals(field, "xline_quit") {
            proof {
                reveal_strlit("xline_quit");
            }
            Some(self.xline_quit.clone())
        } else if str_equals(field, "xline_quit_public") {
            proof {
                reveal_strlit("xline_quit_public");
            }
            Some(self.xline_quit_public.clone())
        } else if str_equals(field, "custom_version") {
            proof {
                reveal_strlit("custom_version");
            }
            Some(self.custom_version.clone())
        } else if str_equals(field, "hide_server") {
            proof {
                reveal_strlit("hide_server");
            }
            Some(self.hide_server.clone())
        } else if str_equals(field, "restrict_banned_users") {
            proof {
                reveal_strlit("restrict_banned_users");
            }
            Some(self.restrict_banned_users.clone())
        } else if str_equals(field, "config_path") {
            proof {
                reveal_strlit("config_path");
            }
            Some(self.config_path.clone())
        } else if str_equals(field, "data_path") {
            proof {
                reveal_strlit("data_path");
            }
            Some(self.data_path.clone())
        } else if str_equals(field, "log_path") {
            proof {
                reveal_strlit("log_path");
            }
            Some(self.log_path.clone())
        } else if str_equals(field, "module_path") {
            proof {
                reveal_strlit("module_path");
            }
            Some(self.modules_path.clone())
        } else if str_equals(field, "runtime_path") {
            proof {
                reveal_strlit("runtime_path");
            }
            Some(self.runtime_path.clone())
        } else if str_equals(field, "config_file_name") {
            proof {
                reveal_strlit("config_file_name");
            }
            Some(self.config_file_name.clone())
        } else {
            None
        }
    }

    /// The integer setting named `field`, as a C `int`.
    pub fn get_int(&self, field: &str) -> (r: Option<i32>)
        ensures
            r == toml_int_field(*self, field@),
    {
        if str_equals(field, "max_conn") {
            proof {
                reveal_strlit("max_conn");
            }
            Some(self.max_conn)
        } else if str_equals(field, "soft_limit") {
            proof {
                reveal_strlit("soft_limit");
            }
            Some(self.soft_limit as i32)
        } else if str_equals(field, "max_targets") {
            proof {
                reveal_strlit("max_targets");
            }
            Some(self.max_targets as i32)
        } else if str_equals(field, "max_line") {
            proof {
                reveal_strlit("max_line");
            }
            Some(self.max_line as i32)
        } else if str_equals(field, "max_nick") {
            proof {
                reveal_strlit("max_nick");
            }
            Some(self.max_nick as i32)
        } else if str_equals(field, "max_channel") {
            proof {
                reveal_strlit("max_channel");
            }
            Some(self.max_channel as i32)
        } else if str_equals(field, "max_modes") {
            proof {
                reveal_strlit("max_modes");
            }
            Some(self.max_modes as i32)
        } else if str_equals(field, "max_user") {
            proof {
                reveal_strlit("max_user");
            }
            Some(self.max_user as i32)
        } else if str_equals(field, "max_quit") {
            proof {
                reveal_strlit("max_quit");
            }
            Some(self.max_quit as i32)
        } else if str_equals(field, "max_topic") {
            proof {
                reveal_strlit("max_topic");
            }
            Some(self.max_topic as i32)
        } else if str_equals(field, "max_kick") {
            proof {
                reveal_strlit("max_kick");
            }
            Some(self.max_kick as i32)
        } else if str_equals(field, "max_real") {
            proof {
                reveal_strlit("max_real");
            }
            Some(self.max_real as i32)
        } else if str_equals(field, "max_away") {
            proof {
                reveal_strlit("max_away");
            }
            Some(self.max_away as i32)
        } else if str_equals(field, "max_host") {
            proof {
                reveal_strlit("max_host");
            }
            Some(self.max_host as i32)
        } else if str_equals(field, "max_key") {
            proof {
                reveal_strlit("max_key");
            }
            Some(self.max_key as i32)
        } else if str_equals(field, "net_buffer_size") {
            proof {
                reveal_strlit("net_buffer_size");
            }
            Some(self.net_buffer_size as i32)
        } else if str_equals(field, "ipv4_range") {
            proof {
                reveal_strlit("ipv4_range");
            }
            Some(self.ipv4_range as i32)
        } else if str_equals(field, "ipv6_range") {
            proof {
                reveal_strlit("ipv6_range");
            }
            Some(self.ipv6_range as i32)
        } else {
            None
        }
    }

    /// The yes-or-no setting named `field`.
    pub fn get_bool(&self, field: &str) -> (r: Option<bool>)
        ensures
            r == toml_bool_field(*self, field@),
    {
        if str_equals(field, "mask_in_list") {
            proof {
                reveal_strlit("mask_in_list");
            }
            Some(self.mask_in_list)
        } else if str_equals(field, "mask_in_topic") {
            proof {
                reveal_strlit("mask_in_topic");
            }
            Some(self.mask_in_topic)
        } else if str_equals(field, "no_snotice_stack") {
            proof {
                reveal_strlit("no_snotice_stack");
            }
            Some(self.no_snotice_stack)
        } else if str_equals(field, "syntax_hints") {
            proof {
                reveal_strlit("syntax_hints");
            }
            Some(self.syntax_hints)
        } else if str_equals(field, "wildcard_ipv6") {
            proof {
                reveal_strlit("wildcard_ipv6");
            }
            Some(self.wildcard_ipv6)
        } else if str_equals(field, "valid") {
            proof {
                reveal_strlit("valid");
            }
            Some(self.valid)
        } else {
            None
        }
    }

    /// The unsigned setting named `field`.
    pub fn get_u64(&self, field: &str) -> (r: Option<u64>)
        ensures
            r == toml_u64_field(*self, field@),
    {
        if str_equals(field, "time_skip_warn") {
            proof {
                reveal_strlit("time_skip_warn");
            }
            Some(self.time_skip_warn)
        } else if str_equals(field, "soft_limit") {
            proof {
                reveal_strlit("soft_limit");
            }
            Some(self.soft_limit as u64)
        } else if str_equals(field, "net_buffer_size") {
            proof {
                reveal_strlit("net_buffer_size");
            }
            Some(self.net_buffer_size as u64)
        } else {
            None
        }
    }
}

} // verus!
