//! The SHUN module: operators can stop users from issuing commands. This
//! holds the module's decisions; the server calls that they depend on
//! are made by the caller, which hands in what they returned.

use vstd::prelude::*;
use crate::text::str_equals;

verus! {

/// The result of handling a command.
#[allow(non_camel_case_types)]
#[derive(PartialEq, Eq, Structural, Clone, Copy, Debug)]
pub enum CmdResult {
    SUCCESS,
    FAILURE,
    INVALID,
}

impl CmdResult {
    /// The number that stands for the result across the C++ boundary.
    pub fn value(&self) -> (r: i32)
        ensures
            r == (match self {
                CmdResult::SUCCESS => 0i32,
                CmdResult::FAILURE => 1i32,
                CmdResult::INVALID => 2i32,
            }),
    {
        match self {
            CmdResult::SUCCESS => 0,
            CmdResult::FAILURE => 1,
            CmdResult::INVALID => 2,
        }
    }
}

/// The answer of a module to an event.
#[allow(non_camel_case_types)]
#[derive(PartialEq, Eq, Structural, Clone, Copy, Debug)]
pub enum ModResult {
    MOD_RES_PASSTHRU,
    MOD_RES_DENY,
    MOD_RES_ALLOW,
}

impl ModResult {
    /// The number that stands for the answer across the C++ boundary.
    pub fn value(&self) -> (r: i32)
        ensures
            r == (match self {
                ModResult::MOD_RES_PASSTHRU => 0i32,
                ModResult::MOD_RES_DENY => 1i32,
                ModResult::MOD_RES_ALLOW => 2i32,
            }),
    {
        match self {
            ModResult::MOD_RES_PASSTHRU => 0,
            ModResult::MOD_RES_DENY => 1,
            ModResult::MOD_RES_ALLOW => 2,
        }
    }
}

/// Who may use a command.
#[allow(non_camel_case_types)]
#[derive(PartialEq, Eq, Structural, Clone, Copy, Debug)]
pub enum CmdAccess {
    OPERATOR,
    ADMIN,
}

impl CmdAccess {
    /// The number that stands for the access level across the C++
    /// boundary.
    pub fn value(&self) -> (r: i32)
        ensures
            r == (match self {
                CmdAccess::OPERATOR => 1i32,
                CmdAccess::ADMIN => 2i32,
            }),
    {
        match self {
            CmdAccess::OPERATOR => 1,
            CmdAccess::ADMIN => 2,
        }
    }
}

/// The settings of the module.
pub struct ShunSettings {
    /// Users that are not fully connected are exempt.
    pub allowconnect: bool,
    /// Shunned users keep their client-only message tags.
    pub allowtags: bool,
    /// Shunned users are told when a command is blocked.
    pub notifyuser: bool,
}

impl ShunSettings {
    /// The settings before the configuration is read.
    pub fn new() -> (r: Self)
        ensures
            !r.allowconnect,
            !r.allowtags,
            r.notifyuser,
    {
        ShunSettings { allowconnect: false, allowtags: false, notifyuser: true }
    }

    /// Takes the settings read from the `<shun>` tag.
    pub fn read_config(&mut self, allowconnect: bool, allowtags: bool, notifyuser: bool)
        ensures
            final(self).allowconnect == allowconnect,
            final(self).allowtags == allowtags,
            final(self).notifyuser == notifyuser,
    {
        self.allowconnect = allowconnect;
        self.allowtags = allowtags;
        self.notifyuser = notifyuser;
    }
}

/// The mask that a SHUN names: for a connected user, `*!user@address`;
/// else the parameter as given.
pub open spec fn spec_shun_target(param: Seq<char>, found: Option<(Seq<char>, Seq<char>)>) -> Seq<char> {
    match found {
        Some((u, a)) => "*!"@ + u + "@"@ + a,
        None => param,
    }
}

/// The mask that a SHUN names, given the ban user and address of the user
/// that the parameter names, if one is connected.
pub fn shun_target(param: &str, found: Option<(String, String)>) -> (r: String)
    ensures
        r@ == spec_shun_target(param@, match found {
            Some((u, a)) => Some((u@, a@)),
            None => None,
        }),
{
    match found {
        Some((u, a)) => {
            let mut t = String::new();
            t.append("*!");
            t.append(u.as_str());
            t.append("@");
            t.append(a.as_str());
            proof {
                assert(Seq::<char>::empty() + "*!"@ =~= "*!"@);
            }
            t
        },
        None => param.to_owned(),
    }
}

/// What a SHUN command asks for.
#[derive(PartialEq, Eq, Structural, Clone, Copy, Debug)]
pub enum ShunRequest {
    /// Remove the shun on the mask.
    Remove,
    /// Add a shun lasting `duration` seconds (0 for ever) with the reason
    /// in the parameter at `reason_index`.
    Add { duration: u64, reason_index: usize },
    /// The duration given is not one.
    InvalidDuration,
}

/// Reads a SHUN command from its number of parameters and, where it has
/// more than two, how its second parameter parses as a duration: one
/// parameter removes, two add a permanent shun, three add one for the
/// duration given.
pub fn plan_shun(param_count: usize, duration: Result<u64, ()>) -> (r: ShunRequest)
    requires
        param_count >= 1,
    ensures
        param_count == 1 ==> r == ShunRequest::Remove,
        param_count == 2 ==> r == (ShunRequest::Add { duration: 0, reason_index: 1 }),
        param_count > 2 ==> r == match duration {
            Ok(d) => ShunRequest::Add { duration: d, reason_index: 2 },
            Err(_) => ShunRequest::InvalidDuration,
        },
{
    if param_count == 1 {
        ShunRequest::Remove
    } else if param_count > 2 {
        match duration {
            Ok(d) => ShunRequest::Add { duration: d, reason_index: 2 },
            Err(_) => ShunRequest::InvalidDuration,
        }
    } else {
        ShunRequest::Add { duration: 0, reason_index: 1 }
    }
}

fn concat3(a: &str, b: &str, c: &str) -> (r: String)
    ensures
        r@ == a@ + b@ + c@,
{
    let mut s = String::new();
    s.append(a);
    s.append(b);
    s.append(c);
    proof {
        assert(Seq::<char>::empty() + a@ =~= a@);
    }
    s
}

/// The server notice that a shun was removed, with the reason it was set
/// for.
pub fn shun_removed_message(oper: &str, mask: &str, reason: &str) -> (r: String)
    ensures
        r@ == oper@ + " removed SHUN on "@ + mask@ + ": "@ + reason@,
{
    let mut s = concat3(oper, " removed SHUN on ", mask);
    s.append(": ");
    s.append(reason);
    s
}

/// The notice to an operator that the shun to remove does not exist.
pub fn shun_not_found_notice(mask: &str) -> (r: String)
    ensures
        r@ == "*** Shun "@ + mask@ + " not found on the list."@,
{
    concat3("*** Shun ", mask, " not found on the list.")
}

/// The notice to an operator that the duration given is invalid.
pub fn shun_invalid_duration_notice() -> (r: String)
    ensures
        r@ == "*** Invalid duration for SHUN."@,
{
    String::from_str("*** Invalid duration for SHUN.")
}

/// The server notice that a shun was added: permanent for a duration of
/// 0, else timed, with how long it lasts and when it expires as the server
/// writes them.
pub fn shun_added_message(
    oper: &str,
    target: &str,
    duration: u64,
    duration_text: &str,
    expiry_text: &str,
    reason: &str,
) -> (r: String)
    ensures
        duration == 0 ==> r@ == oper@ + " added permanent SHUN for "@ + target@ + ": "@ + reason@,
        duration != 0 ==> r@ == oper@ + " added a timed SHUN on "@ + target@ + ", expires in "@
            + duration_text@ + " (on "@ + expiry_text@ + "): "@ + reason@,
{
    if duration == 0 {
        let mut s = concat3(oper, " added permanent SHUN for ", target);
        s.append(": ");
        s.append(reason);
        s
    } else {
        let mut s = concat3(oper, " added a timed SHUN on ", target);
        s.append(", expires in ");
        s.append(duration_text);
        s.append(" (on ");
        s.append(expiry_text);
        s.append("): ");
        s.append(reason);
        s
    }
}

/// The notice to an operator that the shun to add exists already.
pub fn shun_exists_notice(target: &str) -> (r: String)
    ensures
        r@ == "*** Shun for "@ + target@ + " already exists."@,
{
    concat3("*** Shun for ", target, " already exists.")
}

/// Whether a user is held by a shun: users not fully connected are exempt
/// where `allowconnect` is set, and operators with the privilege to ignore
/// shuns always are; else a matching shun holds them.
pub fn is_shunned(settings: &ShunSettings, fully_connected: bool, has_ignore_privilege: bool, matches_shun: bool) -> (r: bool)
    ensures
        r == (!(settings.allowconnect && !fully_connected) && !has_ignore_privilege && matches_shun),
{
    if settings.allowconnect && !fully_connected {
        return false;
    }
    if has_ignore_privilege {
        return false;
    }
    matches_shun
}

/// The answer to a STATS request: the shun list answers the `H` symbol.
pub fn on_stats(symbol: u8) -> (r: ModResult)
    ensures
        r == (if symbol == 'H' as u8 {
            ModResult::MOD_RES_DENY
        } else {
            ModResult::MOD_RES_PASSTHRU
        }),
{
    if symbol != 'H' as u8 {
        ModResult::MOD_RES_PASSTHRU
    } else {
        ModResult::MOD_RES_DENY
    }
}

/// Whether a message tag is client-only: its key starts with `+`.
pub fn is_client_only_tag(key: &[u8]) -> (r: bool)
    ensures
        r == (key@.len() > 0 && key@[0] == '+' as u8),
{
    key.len() > 0 && key[0] == '+' as u8
}

/// What to do with a command before it is run.
pub struct PreCommandPlan {
    /// The module's answer.
    pub result: ModResult,
    /// A notice to send to the user.
    pub notice: Option<String>,
    /// Whether to remove the client-only tags of the command.
    pub strip_client_tags: bool,
    /// Whether to drop all parameters.
    pub clear_params: bool,
    /// The number of parameters to keep, if they are to be cut.
    pub resize_params: Option<usize>,
}

/// Decides what to do with a command of a user before it is run, given
/// whether the command was validated, whether the user is shunned, whether
/// the command is one that shunned users may issue (`enabled`) and one
/// whose parameters are cleaned (`cleaned`), and its number of
/// parameters. Commands of users that are not shunned pass. Other
/// commands are denied, with a notice where users are notified. Enabled
/// commands pass, losing their client-only tags unless tags are allowed;
/// of cleaned commands, AWAY and QUIT lose their parameters when they have
/// none, and CYCLE, KNOCK and PART are cut to one parameter when they have
/// one.
pub fn plan_pre_command(
    command: &str,
    validated: bool,
    shunned: bool,
    enabled: bool,
    cleaned: bool,
    settings: &ShunSettings,
    param_count: usize,
) -> (r: PreCommandPlan)
    ensures
        (validated || !shunned) ==> (r.result == ModResult::MOD_RES_PASSTHRU && r.notice is None
            && !r.strip_client_tags && !r.clear_params && r.resize_params is None),
        (!validated && shunned && !enabled) ==> (r.result == ModResult::MOD_RES_DENY
            && !r.strip_client_tags && !r.clear_params && r.resize_params is None && (if settings.notifyuser {
            r.notice matches Some(n) && n@ == "*** "@ + command@
                + " command not processed as you have been blocked from issuing commands."@
        } else {
            r.notice is None
        })),
        (!validated && shunned && enabled) ==> (r.result == ModResult::MOD_RES_PASSTHRU
            && r.notice is None && r.strip_client_tags == !settings.allowtags && r.clear_params == (
        cleaned && param_count == 0 && (command@ == "AWAY"@ || command@ == "QUIT"@))
            && r.resize_params == (if cleaned && param_count == 1 && (command@ == "CYCLE"@
            || command@ == "KNOCK"@ || command@ == "PART"@) {
            Some(1usize)
        } else {
            None
        })),
{
    if validated || !shunned {
        return PreCommandPlan {
            result: ModResult::MOD_RES_PASSTHRU,
            notice: None,
            strip_client_tags: false,
            clear_params: false,
            resize_params: None,
        };
    }
    if !enabled {
        let notice = if settings.notifyuser {
            Some(concat3("*** ", command, " command not processed as you have been blocked from issuing commands."))
        } else {
            None
        };
        return PreCommandPlan {
            result: ModResult::MOD_RES_DENY,
            notice,
            strip_client_tags: false,
            clear_params: false,
            resize_params: None,
        };
    }
    let mut clear_params = false;
    let mut resize_params: Option<usize> = None;
    if cleaned {
        if param_count == 0 {
            if str_equals(command, "AWAY") || str_equals(command, "QUIT") {
                clear_params = true;
            }
        } else if param_count == 1 {
            if str_equals(command, "CYCLE") || str_equals(command, "KNOCK") || str_equals(command, "PART") {
                resize_params = Some(1);
            }
        }
    }
    PreCommandPlan {
        result: ModResult::MOD_RES_PASSTHRU,
        notice: None,
        strip_client_tags: !settings.allowtags,
        clear_params,
        resize_params,
    }
}

} // verus!
