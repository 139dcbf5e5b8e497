//! Start-up decisions of the daemon: what the command line asks for, and
//! what to do when started as root.

use vstd::prelude::*;

verus! {

/// The options given on the command line.
pub struct CommandLineFlags {
    /// The location of the main config file.
    pub config: Option<String>,
    /// Start in debug mode.
    pub debug: bool,
    /// Disable forking into the background.
    pub nofork: bool,
    /// Show help and exit.
    pub help: bool,
    /// Disable writing logs to disk.
    pub nolog: bool,
    /// Start in protocol debug mode.
    pub protocoldebug: bool,
    /// Disable writing the pid file.
    pub nopid: bool,
    /// Allow starting as root.
    pub runasroot: bool,
    /// Show version and exit.
    pub version: bool,
}

/// What the daemon does after reading its command line.
#[derive(PartialEq, Eq, Structural, Clone, Copy, Debug)]
pub enum StartupAction {
    /// Print the help and exit with code 0.
    PrintHelp,
    /// Print the version and exit with code 0.
    PrintVersion,
    /// Start the server.
    Run,
}

/// The start-up settings that the command line gives.
pub struct StartupOptions {
    pub action: StartupAction,
    /// The config file to read, before it is made absolute.
    pub config_path: String,
    pub debug: bool,
    pub nofork: bool,
    pub writelog: bool,
    pub writepid: bool,
    pub runasroot: bool,
    pub forceprotodebug: bool,
}

/// The config file named on the command line, else the default one, else
/// `inspircd.conf`.
pub open spec fn spec_config_path(config: Option<String>, default_config: Option<String>) -> Seq<char> {
    match config {
        Some(c) => c@,
        None => match default_config {
            Some(d) => d@,
            None => "inspircd.conf"@,
        },
    }
}

/// Reads the command line options: help and version come first; else
/// protocol debug mode implies debug mode, debug mode implies not forking,
/// and logs and the pid file are written unless disabled.
pub fn plan_startup(flags: CommandLineFlags, default_config: Option<String>) -> (r: StartupOptions)
    ensures
        r.action == (if flags.help {
            StartupAction::PrintHelp
        } else if flags.version {
            StartupAction::PrintVersion
        } else {
            StartupAction::Run
        }),
        r.action == StartupAction::Run ==> {
            &&& r.config_path@ == spec_config_path(flags.config, default_config)
            &&& r.debug == (flags.debug || flags.protocoldebug)
            &&& r.nofork == (flags.debug || flags.protocoldebug || flags.nofork)
            &&& r.writelog == !flags.nolog
            &&& r.writepid == !flags.nopid
            &&& r.runasroot == flags.runasroot
            &&& r.forceprotodebug == flags.protocoldebug
        },
        r.action != StartupAction::Run ==> {
            &&& !r.debug && !r.nofork && r.writelog && r.writepid && !r.runasroot
                && !r.forceprotodebug
        },
{
    if flags.help || flags.version {
        return StartupOptions {
            action: if flags.help {
                StartupAction::PrintHelp
            } else {
                StartupAction::PrintVersion
            },
            config_path: String::new(),
            debug: false,
            nofork: false,
            writelog: true,
            writepid: true,
            runasroot: false,
            forceprotodebug: false,
        };
    }
    let config_path = match flags.config {
        Some(c) => c,
        None => match default_config {
            Some(d) => d,
            None => String::from_str("inspircd.conf"),
        },
    };
    let debug = flags.debug || flags.protocoldebug;
    StartupOptions {
        action: StartupAction::Run,
        config_path,
        debug,
        nofork: debug || flags.nofork,
        writelog: !flags.nolog,
        writepid: !flags.nopid,
        runasroot: flags.runasroot,
        forceprotodebug: flags.protocoldebug,
    }
}

/// What to do about the user and group the daemon runs as.
#[derive(PartialEq, Eq, Structural, Clone, Copy, Debug)]
pub enum RootCheck {
    /// Not running as root: go on.
    Proceed,
    /// Running as root on a terminal: warn, and wait 30 seconds.
    WarnAndWait,
    /// Running as root without a terminal: warn, and exit with code 1.
    WarnAndExit,
}

/// Decides what to do given the effective user and group IDs and whether
/// standard output is a terminal: root is user or group 0.
pub fn check_root(euid: u32, egid: u32, is_tty: bool) -> (r: RootCheck)
    ensures
        r == (if euid == 0 || egid == 0 {
            if is_tty {
                RootCheck::WarnAndWait
            } else {
                RootCheck::WarnAndExit
            }
        } else {
            RootCheck::Proceed
        }),
{
    if euid == 0 || egid == 0 {
        if is_tty {
            RootCheck::WarnAndWait
        } else {
            RootCheck::WarnAndExit
        }
    } else {
        RootCheck::Proceed
    }
}

} // verus!
