//! The server configuration: its settings and their defaults, the fields
//! reachable by name, and the tags of the XML-like configuration format.

use vstd::prelude::*;
use crate::text::{str_chars, str_equals, string_from_chars, trim_range, trim_chars, is_whitespace, is_unicode_whitespace};
use crate::configreader::{parse_bool, spec_parse_bool};

verus! {

/// How users banned from a channel are treated.
#[derive(PartialEq, Eq, Structural, Clone, Copy, Debug)]
pub enum BannedUserTreatment {
    /// Don't treat a banned user any different to normal.
    Normal,
    /// Restrict the actions of a banned user.
    RestrictSilent,
    /// Restrict the actions of a banned user and notify them of their treatment.
    RestrictNotify,
}

impl BannedUserTreatment {
    /// The number that stands for the treatment across the C++ boundary.
    pub fn value(&self) -> (r: u8)
        ensures
            r == (match self {
                BannedUserTreatment::Normal => 0u8,
                BannedUserTreatment::RestrictSilent => 1u8,
                BannedUserTreatment::RestrictNotify => 2u8,
            }),
    {
        match self {
            BannedUserTreatment::Normal => 0,
            BannedUserTreatment::RestrictSilent => 1,
            BannedUserTreatment::RestrictNotify => 2,
        }
    }
}

impl Default for BannedUserTreatment {
    fn default() -> (r: Self)
        ensures
            r == BannedUserTreatment::Normal,
    {
        BannedUserTreatment::Normal
    }
}

/// Limits on the lengths of things.
pub struct ServerLimits {
    pub max_line: usize,
    pub max_nick: usize,
    pub max_channel: usize,
    pub max_modes: usize,
    pub max_user: usize,
    pub max_quit: usize,
    pub max_topic: usize,
    pub max_kick: usize,
    pub max_real: usize,
    pub max_away: usize,
    pub max_host: usize,
    pub max_key: usize,
}

/// The directories the server uses.
pub struct ServerPaths {
    pub config: String,
    pub data: String,
    pub log: String,
    pub module: String,
    pub runtime: String,
}

/// The options given on the command line.
pub struct CommandLineOptions {
    pub config: Option<String>,
    pub debug: bool,
    pub nofork: bool,
    pub nolog: bool,
    pub nopid: bool,
    pub protocoldebug: bool,
    pub runasroot: bool,
    pub version: bool,
    pub help: bool,
    pub test: bool,
}

/// The settings of the server.
pub struct ServerConfig {
    pub server_name: String,
    pub server_id: String,
    pub server_desc: String,
    pub network: String,
    pub default_modes: String,
    pub mask_in_list: bool,
    pub mask_in_topic: bool,
    pub no_snotice_stack: bool,
    pub syntax_hints: bool,
    pub xline_message: String,
    pub xline_quit: String,
    pub xline_quit_public: String,
    pub restrict_banned_users: BannedUserTreatment,
    pub wildcard_ipv6: bool,
    pub max_conn: i32,
    pub net_buffer_size: usize,
    pub soft_limit: usize,
    pub time_skip_warn: u64,
    pub custom_version: String,
    pub hide_server: String,
    pub max_targets: usize,
    pub ipv4_range: u8,
    pub ipv6_range: u8,
    pub limits: ServerLimits,
    pub paths: ServerPaths,
    pub command_line: CommandLineOptions,
    pub config_file_name: String,
    pub valid: bool,
}

/// Limits that are all zero.
pub open spec fn limits_zero(l: ServerLimits) -> bool {
    &&& l.max_line == 0
    &&& l.max_nick == 0
    &&& l.max_channel == 0
    &&& l.max_modes == 0
    &&& l.max_user == 0
    &&& l.max_quit == 0
    &&& l.max_topic == 0
    &&& l.max_kick == 0
    &&& l.max_real == 0
    &&& l.max_away == 0
    &&& l.max_host == 0
    &&& l.max_key == 0
}

/// Paths that are all empty.
pub open spec fn paths_empty(p: ServerPaths) -> bool {
    &&& p.config@.len() == 0
    &&& p.data@.len() == 0
    &&& p.log@.len() == 0
    &&& p.module@.len() == 0
    &&& p.runtime@.len() == 0
}

/// Command line options that are all unset.
pub open spec fn options_unset(c: CommandLineOptions) -> bool {
    &&& c.config is None
    &&& !c.debug
    &&& !c.nofork
    &&& !c.nolog
    &&& !c.nopid
    &&& !c.protocoldebug
    &&& !c.runasroot
    &&& !c.version
    &&& !c.help
    &&& !c.test
}

/// A configuration with every setting empty, zero or unset.
pub open spec fn is_empty_config(c: ServerConfig) -> bool {
    &&& c.server_name@.len() == 0
    &&& c.server_id@.len() == 0
    &&& c.server_desc@.len() == 0
    &&& c.network@.len() == 0
    &&& c.default_modes@.len() == 0
    &&& !c.mask_in_list
    &&& !c.mask_in_topic
    &&& !c.no_snotice_stack
    &&& !c.syntax_hints
    &&& c.xline_message@.len() == 0
    &&& c.xline_quit@.len() == 0
    &&& c.xline_quit_public@.len() == 0
    &&& c.restrict_banned_users == BannedUserTreatment::Normal
    &&& !c.wildcard_ipv6
    &&& c.max_conn == 0
    &&& c.net_buffer_size == 0
    &&& c.soft_limit == 0
    &&& c.time_skip_warn == 0
    &&& c.custom_version@.len() == 0
    &&& c.hide_server@.len() == 0
    &&& c.max_targets == 0
    &&& c.ipv4_range == 0
    &&& c.ipv6_range == 0
    &&& limits_zero(c.limits)
    &&& paths_empty(c.paths)
    &&& options_unset(c.command_line)
    &&& c.config_file_name@.len() == 0
    &&& !c.valid
}

/// A configuration with every setting but the command line and the
/// config file empty, zero or unset.
pub open spec fn is_empty_apart_from_command_line(c: ServerConfig) -> bool {
    &&& c.server_name@.len() == 0
    &&& c.server_id@.len() == 0
    &&& c.server_desc@.len() == 0
    &&& c.network@.len() == 0
    &&& c.default_modes@.len() == 0
    &&& !c.mask_in_list
    &&& !c.mask_in_topic
    &&& !c.no_snotice_stack
    &&& !c.syntax_hints
    &&& c.xline_message@.len() == 0
    &&& c.xline_quit@.len() == 0
    &&& c.xline_quit_public@.len() == 0
    &&& c.restrict_banned_users == BannedUserTreatment::Normal
    &&& !c.wildcard_ipv6
    &&& c.max_conn == 0
    &&& c.net_buffer_size == 0
    &&& c.soft_limit == 0
    &&& c.time_skip_warn == 0
    &&& c.custom_version@.len() == 0
    &&& c.hide_server@.len() == 0
    &&& c.max_targets == 0
    &&& c.ipv4_range == 0
    &&& c.ipv6_range == 0
    &&& limits_zero(c.limits)
    &&& paths_empty(c.paths)
    &&& !c.valid
}

impl Default for ServerLimits {
    fn default() -> (r: Self)
        ensures
            limits_zero(r),
    {
        ServerLimits {
            max_line: 0,
            max_nick: 0,
            max_channel: 0,
            max_modes: 0,
            max_user: 0,
            max_quit: 0,
            max_topic: 0,
            max_kick: 0,
            max_real: 0,
            max_away: 0,
            max_host: 0,
            max_key: 0,
        }
    }
}

impl Default for ServerPaths {
    fn default() -> (r: Self)
        ensures
            paths_empty(r),
    {
        ServerPaths {
            config: String::new(),
            data: String::new(),
            log: String::new(),
            module: String::new(),
            runtime: String::new(),
        }
    }
}

impl Default for CommandLineOptions {
    fn default() -> (r: Self)
        ensures
            options_unset(r),
    {
        CommandLineOptions {
            config: None,
            debug: false,
            nofork: false,
            nolog: false,
            nopid: false,
            protocoldebug: false,
            runasroot: false,
            version: false,
            help: false,
            test: false,
        }
    }
}

impl Default for ServerConfig {
    fn default() -> (r: Self)
        ensures
            is_empty_config(r),
    {
        ServerConfig {
            server_name: String::new(),
            server_id: String::new(),
            server_desc: String::new(),
            network: String::new(),
            default_modes: String::new(),
            mask_in_list: false,
            mask_in_topic: false,
            no_snotice_stack: false,
            syntax_hints: false,
            xline_message: String::new(),
            xline_quit: String::new(),
            xline_quit_public: String::new(),
            restrict_banned_users: BannedUserTreatment::default(),
            wildcard_ipv6: false,
            max_conn: 0,
            net_buffer_size: 0,
            soft_limit: 0,
            time_skip_warn: 0,
            custom_version: String::new(),
            hide_server: String::new(),
            max_targets: 0,
            ipv4_range: 0,
            ipv6_range: 0,
            limits: ServerLimits::default(),
            paths: ServerPaths::default(),
            command_line: CommandLineOptions::default(),
            config_file_name: String::new(),
            valid: false,
        }
    }
}

/// The defaults that `fill_defaults` puts in place.
pub open spec fn has_filled_defaults(c: ServerConfig) -> bool {
    &&& c.limits.max_line == 512
    &&& c.limits.max_nick == 30
    &&& c.limits.max_channel == 60
    &&& c.limits.max_modes == 20
    &&& c.limits.max_user == 10
    &&& c.limits.max_quit == 300
    &&& c.limits.max_topic == 330
    &&& c.limits.max_kick == 300
    &&& c.limits.max_real == 130
    &&& c.limits.max_away == 200
    &&& c.limits.max_host == 64
    &&& c.limits.max_key == 32
    &&& c.paths.config@ == "/etc/inspircd"@
    &&& c.paths.data@ == "/var/lib/inspircd"@
    &&& c.paths.log@ == "/var/log/inspircd"@
    &&& c.paths.module@ == "/usr/lib/inspircd/modules"@
    &&& c.paths.runtime@ == "/var/run/inspircd"@
    &&& c.default_modes@ == "not"@
    &&& c.xline_message@ == "You're banned!"@
    &&& c.xline_quit@ == "%fulltype%: %reason%"@
    &&& c.max_targets == 5
    &&& c.ipv4_range == 32
    &&& c.ipv6_range == 128
}

/// Everything but the settings that `fill_defaults` sets is the same.
pub open spec fn same_but_defaults(a: ServerConfig, b: ServerConfig) -> bool {
    &&& a.server_name == b.server_name
    &&& a.server_id == b.server_id
    &&& a.server_desc == b.server_desc
    &&& a.network == b.network
    &&& a.mask_in_list == b.mask_in_list
    &&& a.mask_in_topic == b.mask_in_topic
    &&& a.no_snotice_stack == b.no_snotice_stack
    &&& a.syntax_hints == b.syntax_hints
    &&& a.xline_quit_public == b.xline_quit_public
    &&& a.restrict_banned_users == b.restrict_banned_users
    &&& a.wildcard_ipv6 == b.wildcard_ipv6
    &&& a.max_conn == b.max_conn
    &&& a.net_buffer_size == b.net_buffer_size
    &&& a.soft_limit == b.soft_limit
    &&& a.time_skip_warn == b.time_skip_warn
    &&& a.custom_version == b.custom_version
    &&& a.hide_server == b.hide_server
    &&& a.command_line == b.command_line
    &&& a.config_file_name == b.config_file_name
    &&& a.valid == b.valid
}

impl ServerConfig {
    /// A configuration with every setting empty, zero or unset.
    pub fn new() -> (r: Self)
        ensures
            is_empty_config(r),
    {
        Self::default()
    }

    /// A configuration for the given command line: the config file is the
    /// one given, else `inspircd.conf`.
    pub fn from_command_line(config_path: Option<String>, args: CommandLineOptions) -> (r: Self)
        ensures
            r.command_line == args,
            r.config_file_name@ == (match config_path {
                Some(p) => p@,
                None => "inspircd.conf"@,
            }),
            is_empty_apart_from_command_line(r),
    {
        let mut config = Self::new();
        config.command_line = args;
        config.config_file_name = match config_path {
            Some(p) => p,
            None => String::from_str("inspircd.conf"),
        };
        config
    }

    /// Puts the default limits, paths, modes, messages, target limit and
    /// clone ranges in place.
    pub fn fill_defaults(&mut self)
        ensures
            has_filled_defaults(*final(self)),
            same_but_defaults(*final(self), *old(self)),
    {
        self.limits = ServerLimits {
            max_line: 512,
            max_nick: 30,
            max_channel: 60,
            max_modes: 20,
            max_user: 10,
            max_quit: 300,
            max_topic: 330,
            max_kick: 300,
            max_real: 130,
            max_away: 200,
            max_host: 64,
            max_key: 32,
        };
        self.paths = ServerPaths {
            config: String::from_str("/etc/inspircd"),
            data: String::from_str("/var/lib/inspircd"),
            log: String::from_str("/var/log/inspircd"),
            module: String::from_str("/usr/lib/inspircd/modules"),
            runtime: String::from_str("/var/run/inspircd"),
        };
        self.default_modes = String::from_str("not");
        self.xline_message = String::from_str("You're banned!");
        self.xline_quit = String::from_str("%fulltype%: %reason%");
        self.max_targets = 5;
        self.ipv4_range = 32;
        self.ipv6_range = 128;
    }

    /// Sets the text setting named `field`; false, and nothing set, for a
    /// name that is not one.
    pub fn set_string(&mut self, field: &str, value: String) -> (r: bool)
        ensures
            r == string_field_settable(field@),
            r ==> get_string_field(*final(self), field@) == Some(value@),
            !r ==> *final(self) == *old(self),
            forall|other: Seq<char>| other != field@ ==> #[trigger] get_string_field(*final(self), other) == get_string_field(*old(self), other),
    {
        if str_equals(field, "server_name") {
            proof {
                reveal_strlit("server_name");
            }
            self.server_name = value;
            true
        } else if str_equals(field, "server_id") {
            proof {
                reveal_strlit("server_id");
            }
            self.server_id = value;
            true
        } else if str_equals(field, "server_desc") {
            proof {
                reveal_strlit("server_desc");
            }
            self.server_desc = value;
            true
        } else if str_equals(field, "network") {
            proof {
                reveal_strlit("network");
            }
            self.network = value;
            true
        } else if str_equals(field, "default_modes") {
            proof {
                reveal_strlit("default_modes");
            }
            self.default_modes = value;
            true
        } else if str_equals(field, "xline_message") {
            proof {
                reveal_strlit("xline_message");
            }
            self.xline_message = value;
            true
        } else if str_equals(field, "xline_quit") {
            proof {
                reveal_strlit("xline_quit");
            }
            self.xline_quit = value;
            true
        } else if str_equals(field, "xline_quit_public") {
            proof {
                reveal_strlit("xline_quit_public");
            }
            self.xline_quit_public = value;
            true
        } else if str_equals(field, "custom_version") {
            proof {
                reveal_strlit("custom_version");
            }
            self.custom_version = value;
            true
        } else if str_equals(field, "hide_server") {
            proof {
                reveal_strlit("hide_server");
            }
            self.hide_server = value;
            true
        } else {
            false
        }
    }

    /// The text setting named `field`, if there is one of that name.
    pub fn get_string(&self, field: &str) -> (r: Option<String>)
        ensures
            match get_string_field(*self, field@) {
                Some(v) => r matches Some(s) && s@ == v,
                None => r is None,
            },
    {
        if str_equals(field, "server_name") {
            proof {
                reveal_strlit("server_name");
            }
            Some(self.server_name.clone())
        } else if str_equals(field, "server_id") {
            proof {
                reveal_strlit("server_id");
            }
            Some(self.server_id.clone())
        } else if str_equals(field, "server_desc") {
            proof {
                reveal_strlit("server_desc");
            }
            Some(self.server_desc.clone())
        } else if str_equals(field, "network") {
            proof {
                reveal_strlit("network");
            }
            Some(self.network.clone())
        } else if str_equals(field, "default_modes") {
            proof {
                reveal_strlit("default_modes");
            }
            Some(self.default_modes.clone())
        } else if str_equals(field, "xline_message") {
            proof {
                reveal_strlit("xline_message");
            }
            Some(self.xline_message.clone())
        } else if str_equals(field, "xline_quit") {
            proof {
                reveal_strlit("xline_quit");
            }
            Some(self.xline_quit.clone())
        } else if str_equals(field, "xline_quit_public") {
            proof {
                reveal_strlit("xline_quit_public");
            }
            Some(self.xline_quit_public.clone())
        } else if str_equals(field, "custom_version") {
            proof {
                reveal_strlit("custom_version");
            }
            Some(self.custom_version.clone())
        } else if str_equals(field, "hide_server") {
            proof {
                reveal_strlit("hide_server");
            }
            Some(self.hide_server.clone())
        } else if str_equals(field, "config_file_name") {
            proof {
                reveal_strlit("config_file_name");
            }
            Some(self.config_file_name.clone())
        } else {
            None
        }
    }
}

/// Whether a text setting of that name can be set.
pub open spec fn string_field_settable(field: Seq<char>) -> bool {
    field == "server_name"@ || field == "server_id"@ || field == "server_desc"@ || field == "network"@ || field == "default_modes"@ || field == "xline_message"@ || field == "xline_quit"@ || field == "xline_quit_public"@ || field == "custom_version"@ || field == "hide_server"@
}

/// The text setting of the given name.
pub open spec fn get_string_field(c: ServerConfig, field: Seq<char>) -> Option<Seq<char>> {
    if field == "server_name"@ {
        Some(c.server_name@)
    } else if field == "server_id"@ {
        Some(c.server_id@)
    } else if field == "server_desc"@ {
        Some(c.server_desc@)
    } else if field == "network"@ {
        Some(c.network@)
    } else if field == "default_modes"@ {
        Some(c.default_modes@)
    } else if field == "xline_message"@ {
        Some(c.xline_message@)
    } else if field == "xline_quit"@ {
        Some(c.xline_quit@)
    } else if field == "xline_quit_public"@ {
        Some(c.xline_quit_public@)
    } else if field == "custom_version"@ {
        Some(c.custom_version@)
    } else if field == "hide_server"@ {
        Some(c.hide_server@)
    } else if field == "config_file_name"@ {
        Some(c.config_file_name@)
    } else {
        None
    }
}


/// Where in a configuration file a tag stands.
#[derive(Clone, Debug)]
pub struct FilePosition {
    pub name: String,
    pub line: u64,
    pub column: u64,
}

/// A tag of the configuration file, with its attributes in the order
/// they were first given.
pub struct ConfigTag {
    pub name: String,
    pub source: FilePosition,
    pub attributes: Vec<(String, String)>,
}

/// Attributes as pairs of texts.
pub type Attributes = Seq<(Seq<char>, Seq<char>)>;

/// The attributes of a tag as texts.
pub open spec fn attributes_view(a: Seq<(String, String)>) -> Attributes {
    Seq::new(a.len(), |i: int| (a[i].0@, a[i].1@))
}

/// The first index at or after `from` of an attribute named `key`.
pub open spec fn attribute_pos(a: Attributes, key: Seq<char>, from: int) -> Option<int>
    decreases a.len() - from,
{
    if from < 0 || from >= a.len() {
        None
    } else if a[from].0 == key {
        Some(from)
    } else {
        attribute_pos(a, key, from + 1)
    }
}

/// The value of the attribute named `key`.
pub open spec fn attribute_get(a: Attributes, key: Seq<char>) -> Option<Seq<char>> {
    match attribute_pos(a, key, 0) {
        Some(i) => Some(a[i].1),
        None => None,
    }
}

/// The attributes after giving `key` the value `value`: an attribute of
/// that name takes the new value, else one is added.
pub open spec fn attribute_insert(a: Attributes, key: Seq<char>, value: Seq<char>) -> Attributes {
    match attribute_pos(a, key, 0) {
        Some(i) => a.update(i, (key, value)),
        None => a.push((key, value)),
    }
}

impl ConfigTag {
    /// A tag with no attributes.
    pub fn new(name: String, source: FilePosition) -> (r: Self)
        ensures
            r.name == name,
            r.source.name == source.name,
            r.source.line == source.line,
            r.source.column == source.column,
            r.attributes@.len() == 0,
    {
        Self { name, source, attributes: Vec::new() }
    }

    fn find_attribute(&self, key: &str) -> (r: Option<usize>)
        ensures
            r matches Some(p) ==> attribute_pos(attributes_view(self.attributes@), key@, 0) == Some(
                p as int,
            ) && p < self.attributes@.len(),
            r is None ==> attribute_pos(attributes_view(self.attributes@), key@, 0) is None,
    {
        let ghost a = attributes_view(self.attributes@);
        let mut i: usize = 0;
        while i < self.attributes.len()
            invariant
                i <= self.attributes@.len(),
                a == attributes_view(self.attributes@),
                attribute_pos(a, key@, 0) == attribute_pos(a, key@, i as int),
            decreases self.attributes.len() - i,
        {
            if str_equals(self.attributes[i].0.as_str(), key) {
                return Some(i);
            }
            i = i + 1;
        }
        None
    }

    /// The value of the attribute `key`, or the default.
    pub fn get_string(&self, key: &str, default: &str) -> (r: String)
        ensures
            r@ == match attribute_get(attributes_view(self.attributes@), key@) {
                Some(v) => v,
                None => default@,
            },
    {
        match self.find_attribute(key) {
            Some(i) => self.attributes[i].1.clone(),
            None => default.to_owned(),
        }
    }

    /// The value of the attribute `key` read as a flag, or the default.
    pub fn get_bool(&self, key: &str, default: bool) -> (r: bool)
        ensures
            r == match attribute_get(attributes_view(self.attributes@), key@) {
                Some(v) => spec_parse_bool(v, default),
                None => default,
            },
    {
        match self.find_attribute(key) {
            Some(i) => parse_bool(self.attributes[i].1.as_str(), default),
            None => default,
        }
    }

    /// Gives the attribute `key` the value `value`.
    pub fn set_attribute(&mut self, key: String, value: String)
        ensures
            attributes_view(final(self).attributes@) == attribute_insert(
                attributes_view(old(self).attributes@),
                key@,
                value@,
            ),
            final(self).name == old(self).name,
            final(self).source.name == old(self).source.name,
            final(self).source.line == old(self).source.line,
            final(self).source.column == old(self).source.column,
    {
        let ghost before = attributes_view(self.attributes@);
        match self.find_attribute(key.as_str()) {
            Some(i) => {
                self.attributes.set(i, (key, value));
                proof {
                    assert(attributes_view(self.attributes@) =~= before.update(i as int, (key@, value@)));
                }
            },
            None => {
                self.attributes.push((key, value));
                proof {
                    assert(attributes_view(self.attributes@) =~= before.push((key@, value@)));
                }
            },
        }
    }
}

/// How many chars of `s` lie at or after `i`.
pub open spec fn left_of(s: Seq<char>, i: int) -> nat {
    if 0 <= i < s.len() {
        (s.len() - i) as nat
    } else {
        0
    }
}

/// The first index at or after `i` that is not whitespace, or the length.
pub open spec fn skip_whitespace_from(s: Seq<char>, i: int) -> int
    decreases left_of(s, i),
{
    if i < 0 || i >= s.len() {
        s.len() as int
    } else if is_unicode_whitespace(s[i]) {
        skip_whitespace_from(s, i + 1)
    } else {
        i
    }
}

/// The first index at or after `i` that is whitespace, or the length.
pub open spec fn word_end_from(s: Seq<char>, i: int) -> int
    decreases left_of(s, i),
{
    if i < 0 || i >= s.len() {
        s.len() as int
    } else if is_unicode_whitespace(s[i]) {
        i
    } else {
        word_end_from(s, i + 1)
    }
}

/// The words of `s[i..]`: the runs of chars that are not whitespace.
pub open spec fn words_from(s: Seq<char>, i: int) -> Seq<Seq<char>>
    decreases left_of(s, i),
{
    let a = skip_whitespace_from(s, i);
    if i < 0 || a >= s.len() {
        Seq::empty()
    } else {
        let b = word_end_from(s, a);
        if b <= i {
            Seq::empty()
        } else {
            seq![s.subrange(a, b)] + words_from(s, b)
        }
    }
}

/// The index of the first `=` in `s`.
pub open spec fn first_equals(s: Seq<char>) -> Option<int> {
    if exists|i: int| 0 <= i < s.len() && s[i] == '=' {
        Some(choose|i: int| 0 <= i < s.len() && s[i] == '=' && forall|k: int| 0 <= k < i ==> s[k] != '=')
    } else {
        None
    }
}

/// A text enclosed in the quote char `q`.
pub open spec fn quoted_by(v: Seq<char>, q: char) -> bool {
    v.len() >= 1 && v[0] == q && v.last() == q
}

/// Whether reading the attribute would take a lone quote as its value,
/// which the reader cannot strip the quotes from.
pub open spec fn attribute_is_lone_quote(attr: Seq<char>) -> bool {
    match first_equals(attr) {
        Some(e) => {
            let v = trim_chars(attr.subrange(e + 1, attr.len() as int));
            v.len() == 1 && (v[0] == '"' || v[0] == '\'')
        },
        None => false,
    }
}

/// An attribute `key=value`: the key and value trimmed, and the value's
/// enclosing double or single quotes removed; `None` without `=`.
pub open spec fn spec_parse_attribute(attr: Seq<char>) -> Option<(Seq<char>, Seq<char>)> {
    match first_equals(attr) {
        Some(e) => {
            let key = trim_chars(attr.subrange(0, e));
            let v = trim_chars(attr.subrange(e + 1, attr.len() as int));
            let value = if quoted_by(v, '"') || quoted_by(v, '\'') {
                v.subrange(1, v.len() - 1)
            } else {
                v
            };
            Some((key, value))
        },
        None => None,
    }
}


/// The attributes that the words give, in order, later ones replacing
/// earlier ones of the same name; words without `=` are ignored.
pub open spec fn attributes_of(words: Seq<Seq<char>>) -> Attributes
    decreases words.len(),
{
    if words.len() == 0 {
        Seq::empty()
    } else {
        let init = attributes_of(words.drop_last());
        match spec_parse_attribute(words.last()) {
            Some((k, v)) => attribute_insert(init, k, v),
            None => init,
        }
    }
}

/// The inside of a line that is a tag `<...>` once trimmed.
pub open spec fn tag_content(line: Seq<char>) -> Option<Seq<char>> {
    let t = trim_chars(line);
    if t.len() > 0 && t[0] == '<' && t.last() == '>' {
        Some(t.subrange(1, t.len() - 1))
    } else {
        None
    }
}

/// The tag name and attributes that a line of the configuration file
/// gives: comments (`#`), blank lines, closing tags and lines that are no
/// tag give none.
pub open spec fn spec_parse_line(line: Seq<char>) -> Option<(Seq<char>, Attributes)> {
    match tag_content(line) {
        Some(c) => if c.len() > 0 && c[0] == '/' {
            None
        } else {
            let ws = words_from(c, 0);
            if ws.len() == 0 {
                None
            } else {
                Some((ws[0], attributes_of(ws.skip(1))))
            }
        },
        None => None,
    }
}

/// A line the reader takes without failing: no attribute of a tag on it
/// has a lone quote as its value.
pub open spec fn line_readable(line: Seq<char>) -> bool {
    match tag_content(line) {
        Some(c) => forall|k: int|
            1 <= k < words_from(c, 0).len() ==> !attribute_is_lone_quote(#[trigger] words_from(c, 0)[k]),
        None => true,
    }
}

fn chars_range(v: &Vec<char>, from: usize, to: usize) -> (r: Vec<char>)
    requires
        from <= to <= v@.len(),
    ensures
        r@ == v@.subrange(from as int, to as int),
{
    let mut r: Vec<char> = Vec::new();
    let mut i = from;
    while i < to
        invariant
            from <= i <= to <= v@.len(),
            r@ == v@.subrange(from as int, i as int),
        decreases to - i,
    {
        r.push(v[i]);
        proof {
            assert(v@.subrange(from as int, i + 1) =~= v@.subrange(from as int, i as int).push(
                v@[i as int],
            ));
        }
        i = i + 1;
    }
    r
}

/// The texts of a list of char vectors.
pub open spec fn char_vecs_view(v: Seq<Vec<char>>) -> Seq<Seq<char>> {
    Seq::new(v.len(), |i: int| v[i]@)
}

fn split_words(s: &Vec<char>) -> (r: Vec<Vec<char>>)
    ensures
        char_vecs_view(r@) == words_from(s@, 0),
{
    let n = s.len();
    let mut r: Vec<Vec<char>> = Vec::new();
    let mut i: usize = 0;
    proof {
        assert(char_vecs_view(r@) + words_from(s@, 0) =~= words_from(s@, 0));
    }
    while i < n
        invariant
            n == s@.len(),
            i <= n,
            words_from(s@, 0) == char_vecs_view(r@) + words_from(s@, i as int),
        decreases n - i,
    {
        let mut a = i;
        while a < n && is_whitespace(s[a])
            invariant
                n == s@.len(),
                i <= a <= n,
                skip_whitespace_from(s@, i as int) == skip_whitespace_from(s@, a as int),
            decreases n - a,
        {
            a = a + 1;
        }
        if a >= n {
            proof {
                assert(words_from(s@, i as int) =~= Seq::<Seq<char>>::empty());
                assert(words_from(s@, n as int) =~= Seq::<Seq<char>>::empty());
            }
            i = n;
        } else {
            let mut b = a + 1;
            proof {
                assert(word_end_from(s@, a as int) == word_end_from(s@, a + 1));
            }
            while b < n && !is_whitespace(s[b])
                invariant
                    n == s@.len(),
                    a < b <= n,
                    word_end_from(s@, a as int) == word_end_from(s@, b as int),
                decreases n - b,
            {
                b = b + 1;
            }
            let w = chars_range(s, a, b);
            let ghost before = char_vecs_view(r@);
            r.push(w);
            proof {
                assert(char_vecs_view(r@) =~= before.push(s@.subrange(a as int, b as int)));
                assert(words_from(s@, i as int) == seq![s@.subrange(a as int, b as int)] + words_from(
                    s@,
                    b as int,
                ));
                assert(before + words_from(s@, i as int) =~= before.push(s@.subrange(a as int, b as int))
                    + words_from(s@, b as int));
            }
            i = b;
        }
    }
    proof {
        assert(words_from(s@, n as int) =~= Seq::<Seq<char>>::empty());
        assert(char_vecs_view(r@) + Seq::<Seq<char>>::empty() =~= char_vecs_view(r@));
    }
    r
}

fn find_equals(w: &Vec<char>) -> (r: Option<usize>)
    ensures
        r matches Some(p) ==> first_equals(w@) == Some(p as int) && p < w@.len(),
        r is None ==> first_equals(w@) is None,
{
    let mut i: usize = 0;
    while i < w.len()
        invariant
            i <= w@.len(),
            forall|k: int| 0 <= k < i ==> w@[k] != '=',
        decreases w.len() - i,
    {
        if w[i] == '=' {
            proof {
                let c = choose|c: int| 0 <= c < w@.len() && w@[c] == '=' && forall|k: int| 0 <= k < c ==> w@[k] != '=';
                if c < i {
                    assert(w@[c] != '=');
                }
                if c > i {
                    assert(w@[i as int] != '=');
                }
            }
            return Some(i);
        }
        i = i + 1;
    }
    None
}

pub fn parse_attribute(w: &Vec<char>) -> (r: Option<(String, String)>)
    requires
        !attribute_is_lone_quote(w@),
    ensures
        match spec_parse_attribute(w@) {
            Some((k, v)) => r matches Some((a, b)) && a@ == k && b@ == v,
            None => r is None,
        },
{
    let n = w.len();
    match find_equals(w) {
        None => None,
        Some(e) => {
            let (ka, kb) = trim_range(w, 0, e);
            let (va, vb) = trim_range(w, e + 1, w.len());
            let key = string_from_chars(w, ka, kb);
            let ghost v = w@.subrange(va as int, vb as int);
            if vb - va >= 1 && ((w[va] == '"' && w[vb - 1] == '"') || (w[va] == '\'' && w[vb - 1] == '\'')) {
                proof {
                    assert(v.len() != 1);
                }
                let value = string_from_chars(w, va + 1, vb - 1);
                proof {
                    assert(v.subrange(1, v.len() - 1) =~= w@.subrange(va + 1, vb - 1));
                }
                Some((key, value))
            } else {
                let value = string_from_chars(w, va, vb);
                Some((key, value))
            }
        },
    }
}

/// Reads one line of the configuration file: the tag name and attributes
/// it gives, if it is a tag.
pub fn parse_config_line(line: &str) -> (r: Option<(String, Vec<(String, String)>)>)
    requires
        line_readable(line@),
    ensures
        match spec_parse_line(line@) {
            Some((n, a)) => r matches Some((rn, ra)) && rn@ == n && attributes_view(ra@) == a,
            None => r is None,
        },
{
    let v = str_chars(line);
    let (a, b) = trim_range(&v, 0, v.len());
    proof {
        assert(v@.subrange(0, v@.len() as int) =~= line@);
    }
    let ghost t = v@.subrange(a as int, b as int);
    if a == b || !(v[a] == '<' && v[b - 1] == '>') {
        return None;
    }
    let content = chars_range(&v, a + 1, b - 1);
    proof {
        assert(t.subrange(1, t.len() - 1) =~= content@);
        assert(tag_content(line@) == Some(content@));
    }
    if content.len() > 0 && content[0] == '/' {
        return None;
    }
    let words = split_words(&content);
    if words.len() == 0 {
        return None;
    }
    let name = string_from_chars(&words[0], 0, words[0].len());
    proof {
        assert(words@[0]@.subrange(0, words@[0]@.len() as int) =~= words@[0]@);
    }
    let ghost ws = char_vecs_view(words@);
    let mut attrs = ConfigTag::new(name, FilePosition { name: String::new(), line: 0, column: 0 });
    let mut i: usize = 1;
    proof {
        assert(ws.skip(1).take(0) =~= Seq::<Seq<char>>::empty());
        assert(attributes_view(attrs.attributes@) =~= Seq::<(Seq<char>, Seq<char>)>::empty());
    }
    while i < words.len()
        invariant
            1 <= i <= words@.len(),
            ws == char_vecs_view(words@),
            ws == words_from(content@, 0),
            forall|k: int| 1 <= k < ws.len() ==> !attribute_is_lone_quote(#[trigger] ws[k]),
            attributes_view(attrs.attributes@) == attributes_of(ws.skip(1).take(i - 1)),
            attrs.name@ == ws[0],
        decreases words.len() - i,
    {
        proof {
            assert(ws[i as int] == words@[i as int]@);
            assert(ws.skip(1).take(i as int).drop_last() =~= ws.skip(1).take(i - 1));
            assert(ws.skip(1).take(i as int).last() == ws[i as int]);
        }
        match parse_attribute(&words[i]) {
            Some((k, val)) => {
                attrs.set_attribute(k, val);
            },
            None => {},
        }
        i = i + 1;
    }
    proof {
        assert(ws.skip(1).take(i - 1) =~= ws.skip(1));
    }
    Some((attrs.name, attrs.attributes))
}

/// The tags that the lines of the file at `path` give, in order, each
/// with its 1-based line number and column 0.
pub open spec fn spec_parse_lines(lines: Seq<Seq<char>>) -> Seq<(Seq<char>, u64, Attributes)>
    decreases lines.len(),
{
    if lines.len() == 0 {
        Seq::empty()
    } else {
        let init = spec_parse_lines(lines.drop_last());
        match spec_parse_line(lines.last()) {
            Some((n, a)) => init.push((n, lines.len() as u64, a)),
            None => init,
        }
    }
}

/// A tag as its name, line number and attributes.
pub open spec fn tag_summary(t: ConfigTag) -> (Seq<char>, u64, Attributes) {
    (t.name@, t.source.line, attributes_view(t.attributes@))
}

/// Reads the lines of the configuration file at `path` into tags.
pub fn parse_config_lines(lines: &Vec<String>, path: &str) -> (r: Vec<ConfigTag>)
    requires
        lines@.len() < u64::MAX,
        forall|k: int| 0 <= k < lines@.len() ==> line_readable(#[trigger] lines@[k]@),
    ensures
        r@.len() == spec_parse_lines(strings_of(lines@)).len(),
        forall|k: int| 0 <= k < r@.len() ==> tag_summary(#[trigger] r@[k]) == spec_parse_lines(strings_of(lines@))[k],
        forall|k: int| 0 <= k < r@.len() ==> (#[trigger] r@[k]).source.name@ == path@ && r@[k].source.column == 0,
{
    let ghost ls = strings_of(lines@);
    let mut tags: Vec<ConfigTag> = Vec::new();
    let mut i: usize = 0;
    while i < lines.len()
        invariant
            i <= lines@.len() < u64::MAX,
            ls == strings_of(lines@),
            forall|k: int| 0 <= k < lines@.len() ==> line_readable(#[trigger] lines@[k]@),
            tags@.len() == spec_parse_lines(ls.take(i as int)).len(),
            forall|k: int| 0 <= k < tags@.len() ==> tag_summary(#[trigger] tags@[k]) == spec_parse_lines(ls.take(i as int))[k],
            forall|k: int| 0 <= k < tags@.len() ==> (#[trigger] tags@[k]).source.name@ == path@ && tags@[k].source.column == 0,
        decreases lines.len() - i,
    {
        proof {
            assert(ls.take(i + 1).drop_last() =~= ls.take(i as int));
            assert(ls.take(i + 1).last() == lines@[i as int]@);
            assert(line_readable(lines@[i as int]@));
        }
        match parse_config_line(lines[i].as_str()) {
            Some((name, attributes)) => {
                let tag = ConfigTag {
                    name,
                    source: FilePosition { name: path.to_owned(), line: (i + 1) as u64, column: 0 },
                    attributes,
                };
                tags.push(tag);
            },
            None => {},
        }
        i = i + 1;
    }
    proof {
        assert(ls.take(i as int) =~= ls);
    }
    tags
}

/// The texts of a list of strings.
pub open spec fn strings_of(v: Seq<String>) -> Seq<Seq<char>> {
    Seq::new(v.len(), |i: int| v[i]@)
}

/// Whether every line can be read without failing.
pub fn lines_readable(lines: &Vec<String>) -> (r: bool)
    ensures
        r == forall|k: int| 0 <= k < lines@.len() ==> line_readable(#[trigger] lines@[k]@),
{
    let mut i: usize = 0;
    while i < lines.len()
        invariant
            i <= lines@.len(),
            forall|k: int| 0 <= k < i ==> line_readable(#[trigger] lines@[k]@),
        decreases lines.len() - i,
    {
        if !line_readable_check(lines[i].as_str()) {
            return false;
        }
        i = i + 1;
    }
    true
}

fn lone_quote_check(w: &Vec<char>) -> (r: bool)
    ensures
        r == attribute_is_lone_quote(w@),
{
    let n = w.len();
    match find_equals(w) {
        None => false,
        Some(e) => {
            let (va, vb) = trim_range(w, e + 1, w.len());
            vb - va == 1 && (w[va] == '"' || w[va] == '\'')
        },
    }
}

fn line_readable_check(line: &str) -> (r: bool)
    ensures
        r == line_readable(line@),
{
    let v = str_chars(line);
    let (a, b) = trim_range(&v, 0, v.len());
    proof {
        assert(v@.subrange(0, v@.len() as int) =~= line@);
    }
    let ghost t = v@.subrange(a as int, b as int);
    if a == b || !(v[a] == '<' && v[b - 1] == '>') {
        return true;
    }
    let content = chars_range(&v, a + 1, b - 1);
    proof {
        assert(t.subrange(1, t.len() - 1) =~= content@);
        assert(tag_content(line@) == Some(content@));
    }
    let words = split_words(&content);
    let ghost ws = char_vecs_view(words@);
    let mut k: usize = 1;
    while k < words.len()
        invariant
            1 <= k,
            tag_content(line@) == Some(content@),
            ws == char_vecs_view(words@),
            ws == words_from(content@, 0),
            forall|j: int| 1 <= j < k && j < ws.len() ==> !attribute_is_lone_quote(#[trigger] ws[j]),
        decreases words.len() - k,
    {
        if lone_quote_check(&words[k]) {
            proof {
                assert(ws[k as int] == words@[k as int]@);
                assert(attribute_is_lone_quote(words_from(content@, 0)[k as int]));
                assert(words_from(content@, 0).len() == words@.len());
                assert(1 <= k < words_from(content@, 0).len());
                let c = tag_content(line@)->0;
                assert(c == content@);
                assert(line_readable(line@) == (forall|j: int|
                    1 <= j < words_from(c, 0).len() ==> !attribute_is_lone_quote(
                        #[trigger] words_from(c, 0)[j],
                    )));
                assert(!line_readable(line@));
            }
            return false;
        }
        proof {
            assert(ws[k as int] == words@[k as int]@);
        }
        k = k + 1;
    }
    true
}

} // verus!
