//! The decisions of the user manager: flood penalty decay, ping checks,
//! connection timeouts, admission of new connections, quit preconditions,
//! the already-sent counter and the choice between nick and UUID lookups.
//! The caller performs what each decision asks for.

use vstd::prelude::*;
use vstd::string::StringSliceAdditionalSpecFns;
use crate::text::push_str;

verus! {

/// The registration state of a fully connected user.
pub const CONN_FULL: u32 = 7;

/// The registration state of a user that has sent NICK and USER.
pub const CONN_NICKUSER: u32 = 3;

/// The new command flood penalty after a second's decay, where there is
/// anything to decay (a penalty, or data waiting to be sent): the penalty
/// less the class's command rate, not below zero.
pub fn flood_decay(penalty: u64, sendq_size: usize, rate: u64) -> (r: Option<u64>)
    ensures
        r == (if penalty != 0 || sendq_size != 0 {
            Some(if penalty > rate { (penalty - rate) as u64 } else { 0u64 })
        } else {
            None
        }),
{
    if penalty != 0 || sendq_size != 0 {
        if penalty > rate {
            Some(penalty - rate)
        } else {
            Some(0)
        }
    } else {
        None
    }
}

/// What a ping check asks for.
#[derive(PartialEq, Eq, Structural, Clone, Copy, Debug)]
pub enum PingAction {
    /// It is not yet time to ping the user.
    NotYet,
    /// The user did not answer the last ping within the given seconds: quit
    /// them.
    Timeout(u64),
    /// Mark the ping as unanswered, schedule the next check at the given
    /// time and ping the user.
    Ping(i64),
}

/// The seconds a user has gone without answering a ping: the time since
/// the last ping was sent, not below zero.
pub open spec fn ping_silence(now: i64, nextping: i64, pingtime: u64) -> int {
    let s = now - (nextping - (pingtime as i64));
    if s < 0 {
        0
    } else {
        s
    }
}

/// Decides the ping check of a fully connected user at `now`.
pub fn check_ping(now: i64, nextping: i64, lastping: u32, pingtime: u64) -> (r: PingAction)
    requires
        i64::MIN <= nextping - (pingtime as i64) <= i64::MAX,
        i64::MIN <= now - (nextping - (pingtime as i64)) <= i64::MAX,
        i64::MIN <= now + (pingtime as i64) <= i64::MAX,
    ensures
        r == (if now < nextping {
            PingAction::NotYet
        } else if lastping == 0 {
            PingAction::Timeout(ping_silence(now, nextping, pingtime) as u64)
        } else {
            PingAction::Ping((now + (pingtime as i64)) as i64)
        }),
{
    if now < nextping {
        return PingAction::NotYet;
    }
    let pt = pingtime as i64;
    if lastping == 0 {
        let secs = now - (nextping - pt);
        let secs: u64 = if secs < 0 { 0 } else { secs as u64 };
        return PingAction::Timeout(secs);
    }
    PingAction::Ping(now + pt)
}

/// The quit message for a ping timeout, given the duration in words.
pub fn ping_timeout_quit_message(duration: &str) -> (r: String)
    ensures
        r@ == "Ping timeout: "@ + duration@,
{
    let mut s = String::from_str("Ping timeout: ");
    push_str(&mut s, duration);
    s
}

/// A user that has not finished registering times out once its deadline
/// (where it has one, that is where it is not negative) has passed.
pub fn connection_timed_out(deadline: i64, now: i64) -> (r: bool)
    ensures
        r == (deadline >= 0 && now > deadline),
{
    deadline >= 0 && now > deadline
}

/// Which check the background pass runs on a user.
#[derive(PartialEq, Eq, Structural, Clone, Copy, Debug)]
pub enum BackgroundCheck {
    /// A fully connected user: the ping check.
    Ping,
    /// A user that has sent NICK and USER: whether the modules are ready.
    ModulesReady,
    /// Any other user: the connection timeout.
    ConnectionTimeout,
}

/// The check for a user in the given registration state.
pub fn background_check(connected: u32) -> (r: BackgroundCheck)
    ensures
        r == (if connected == CONN_FULL {
            BackgroundCheck::Ping
        } else if connected == CONN_NICKUSER {
            BackgroundCheck::ModulesReady
        } else {
            BackgroundCheck::ConnectionTimeout
        }),
{
    if connected == CONN_FULL {
        BackgroundCheck::Ping
    } else if connected == CONN_NICKUSER {
        BackgroundCheck::ModulesReady
    } else {
        BackgroundCheck::ConnectionTimeout
    }
}

/// What may happen before a user is quit.
#[derive(PartialEq, Eq, Structural, Clone, Copy, Debug)]
pub enum QuitPrecheck {
    /// The user is quitting already: log the bug and stop.
    AlreadyQuitting,
    /// The user is a server: log the bug and stop.
    IsServer,
    /// Go on with the quit.
    Proceed,
}

/// Whether a quit may go ahead.
pub fn quit_precheck(quitting: bool, is_server: bool) -> (r: QuitPrecheck)
    ensures
        r == (if quitting {
            QuitPrecheck::AlreadyQuitting
        } else if is_server {
            QuitPrecheck::IsServer
        } else {
            QuitPrecheck::Proceed
        }),
{
    if quitting {
        QuitPrecheck::AlreadyQuitting
    } else if is_server {
        QuitPrecheck::IsServer
    } else {
        QuitPrecheck::Proceed
    }
}

/// One step of quitting a user, once the quit goes ahead.
#[derive(PartialEq, Eq, Structural, Clone, Copy, Debug)]
pub enum QuitStep {
    /// Mark the user as quitting and log the quit.
    MarkAndLog,
    /// Send the local user the ERROR line.
    SendError,
    /// Queue the user for removal.
    Cull,
    /// Tell the modules, then the user's channels, that the user quit.
    AnnounceQuit,
    /// Count one unregistered user less.
    ForgetUnknown,
    /// Tell the modules that the local user disconnected, and close the
    /// socket.
    Disconnect,
    /// Send the server notice that a client is exiting.
    NoticeExiting,
    /// Drop the local user from the local list and its connect class.
    DropLocal,
    /// Drop the user from the nick and UUID tables, leave its empty
    /// channels and log it out of its oper account.
    Forget,
}

/// The steps of quitting a user, in order: a fully connected user's quit
/// is announced, an unregistered one is uncounted; a local user is sent the
/// ERROR line and disconnected (with a server notice if it was fully
/// connected) and dropped from the local list.
pub open spec fn spec_quit_steps(is_local: bool, fully_connected: bool) -> Seq<QuitStep> {
    seq![QuitStep::MarkAndLog] + (if is_local { seq![QuitStep::SendError] } else { Seq::empty() })
        + seq![QuitStep::Cull] + (if fully_connected {
        seq![QuitStep::AnnounceQuit]
    } else {
        seq![QuitStep::ForgetUnknown]
    }) + (if is_local {
        seq![QuitStep::Disconnect] + (if fully_connected { seq![QuitStep::NoticeExiting] } else { Seq::empty() })
            + seq![QuitStep::DropLocal]
    } else {
        Seq::empty()
    }) + seq![QuitStep::Forget]
}

/// The steps of quitting a user, in order.
pub fn quit_steps(is_local: bool, fully_connected: bool) -> (r: Vec<QuitStep>)
    ensures
        r@ == spec_quit_steps(is_local, fully_connected),
{
    let mut v: Vec<QuitStep> = Vec::new();
    v.push(QuitStep::MarkAndLog);
    if is_local {
        v.push(QuitStep::SendError);
    }
    v.push(QuitStep::Cull);
    if fully_connected {
        v.push(QuitStep::AnnounceQuit);
    } else {
        v.push(QuitStep::ForgetUnknown);
    }
    if is_local {
        v.push(QuitStep::Disconnect);
        if fully_connected {
            v.push(QuitStep::NoticeExiting);
        }
        v.push(QuitStep::DropLocal);
    }
    v.push(QuitStep::Forget);
    proof {
        assert(v@ =~= spec_quit_steps(is_local, fully_connected));
    }
    v
}

/// What an I/O hook provider of a listener means for a new connection.
#[derive(PartialEq, Eq, Structural, Clone, Copy, Debug)]
pub enum HookStep {
    /// No provider is configured in this slot: go on.
    Skip,
    /// A provider is named but does not exist: quit the user.
    Misconfigured,
    /// Hand the connection to the provider.
    Accept,
}

/// The step for one I/O hook provider slot.
pub fn iohook_step(valid: bool, empty_name: bool) -> (r: HookStep)
    ensures
        r == (if valid {
            HookStep::Accept
        } else if empty_name {
            HookStep::Skip
        } else {
            HookStep::Misconfigured
        }),
{
    if !valid {
        if empty_name {
            HookStep::Skip
        } else {
            HookStep::Misconfigured
        }
    } else {
        HookStep::Accept
    }
}

/// A new connection is refused once the local users exceed the soft limit.
pub fn over_soft_limit(local_users: usize, soft_limit: usize) -> (r: bool)
    ensures
        r == (local_users > soft_limit),
{
    local_users > soft_limit
}

/// What the ban cache says of a new connection.
#[derive(PartialEq, Eq, Structural, Clone, Copy, Debug)]
pub enum BanCheck {
    /// A cached ban applies: the user is told and quit with its reason.
    Banned,
    /// The cache has an entry that does not ban the user.
    Clear,
    /// The cache has nothing, and the user is not exempt: check Z-lines.
    CheckZLines,
    /// The cache has nothing and the user is exempt.
    Exempt,
}

/// Decides a new connection against the ban cache: `hit_has_type` is
/// `None` where the cache has no entry for the address, else whether the
/// entry records a type of ban.
pub fn ban_check(hit_has_type: Option<bool>, exempt: bool) -> (r: BanCheck)
    ensures
        r == (match hit_has_type {
            Some(t) => if t && !exempt {
                BanCheck::Banned
            } else {
                BanCheck::Clear
            },
            None => if !exempt {
                BanCheck::CheckZLines
            } else {
                BanCheck::Exempt
            },
        }),
{
    match hit_has_type {
        Some(t) => if t && !exempt {
            BanCheck::Banned
        } else {
            BanCheck::Clear
        },
        None => if !exempt {
            BanCheck::CheckZLines
        } else {
            BanCheck::Exempt
        },
    }
}

/// The next already-sent id after `current`, and whether the counter
/// wrapped (then every user's already-sent id is reset and the next id is
/// 1).
pub fn next_already_sent_id(current: u64) -> (r: (u64, bool))
    ensures
        r == (if current == u64::MAX {
            (1u64, true)
        } else {
            ((current + 1) as u64, false)
        }),
{
    let id = current.wrapping_add(1);
    if id == 0 {
        (1, true)
    } else {
        (id, false)
    }
}

/// How a user is looked up by a nick or a UUID.
#[derive(PartialEq, Eq, Structural, Clone, Copy, Debug)]
pub enum LookupKind {
    /// An empty name finds nobody.
    Nobody,
    /// A name that begins with a digit is a UUID.
    ByUuid,
    /// Any other name is a nick.
    ByNick,
}

/// Chooses the lookup for a nick or UUID.
pub fn lookup_kind(nickuuid: &str) -> (r: LookupKind)
    ensures
        r == (if nickuuid.spec_bytes().len() == 0 {
            LookupKind::Nobody
        } else if 48 <= nickuuid.spec_bytes()[0] <= 57 {
            LookupKind::ByUuid
        } else {
            LookupKind::ByNick
        }),
{
    let b = nickuuid.as_bytes();
    if b.len() == 0 {
        return LookupKind::Nobody;
    }
    if 48 <= b[0] && b[0] <= 57 {
        LookupKind::ByUuid
    } else {
        LookupKind::ByNick
    }
}

} // verus!
