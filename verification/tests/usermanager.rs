use bladedance::usermanager::{quit_steps, QuitStep};
use bladedance::usermanager::{
    background_check, ban_check, check_ping, connection_timed_out, flood_decay, iohook_step,
    lookup_kind, next_already_sent_id, over_soft_limit, ping_timeout_quit_message, quit_precheck,
    BackgroundCheck, BanCheck, HookStep, LookupKind, PingAction, QuitPrecheck, CONN_FULL, CONN_NICKUSER,
};

#[test]
fn flood_penalty_decays_by_rate() {
    assert_eq!(flood_decay(10, 0, 3), Some(7));
    assert_eq!(flood_decay(2, 0, 3), Some(0));
    assert_eq!(flood_decay(0, 0, 3), None);
    assert_eq!(flood_decay(0, 5, 3), Some(0));
}

#[test]
fn ping_checks() {
    assert_eq!(check_ping(100, 200, 1, 60), PingAction::NotYet);
    assert_eq!(check_ping(200, 200, 0, 60), PingAction::Timeout(60));
    assert_eq!(check_ping(200, 200, 1, 60), PingAction::Ping(260));
    assert_eq!(ping_timeout_quit_message("1 minute"), "Ping timeout: 1 minute");
}

#[test]
fn registration_and_admission_decisions() {
    assert!(connection_timed_out(10, 11));
    assert!(!connection_timed_out(10, 10));
    assert!(!connection_timed_out(-1, 100));
    assert_eq!(background_check(CONN_FULL), BackgroundCheck::Ping);
    assert_eq!(background_check(CONN_NICKUSER), BackgroundCheck::ModulesReady);
    assert_eq!(background_check(0), BackgroundCheck::ConnectionTimeout);
    assert_eq!(quit_precheck(true, true), QuitPrecheck::AlreadyQuitting);
    assert_eq!(quit_precheck(false, true), QuitPrecheck::IsServer);
    assert_eq!(quit_precheck(false, false), QuitPrecheck::Proceed);
    assert_eq!(iohook_step(false, true), HookStep::Skip);
    assert_eq!(iohook_step(false, false), HookStep::Misconfigured);
    assert_eq!(iohook_step(true, false), HookStep::Accept);
    assert!(over_soft_limit(11, 10));
    assert!(!over_soft_limit(10, 10));
    assert_eq!(ban_check(Some(true), false), BanCheck::Banned);
    assert_eq!(ban_check(Some(true), true), BanCheck::Clear);
    assert_eq!(ban_check(Some(false), false), BanCheck::Clear);
    assert_eq!(ban_check(None, false), BanCheck::CheckZLines);
    assert_eq!(ban_check(None, true), BanCheck::Exempt);
}

#[test]
fn already_sent_ids_and_lookups() {
    assert_eq!(next_already_sent_id(5), (6, false));
    assert_eq!(next_already_sent_id(u64::MAX), (1, true));
    assert_eq!(lookup_kind("0AB"), LookupKind::ByUuid);
    assert_eq!(lookup_kind("nick"), LookupKind::ByNick);
    assert_eq!(lookup_kind(""), LookupKind::Nobody);
}

#[test]
fn quit_steps_follow_the_user_kind() {
    assert_eq!(
        quit_steps(true, true),
        vec![QuitStep::MarkAndLog, QuitStep::SendError, QuitStep::Cull, QuitStep::AnnounceQuit, QuitStep::Disconnect, QuitStep::NoticeExiting, QuitStep::DropLocal, QuitStep::Forget]
    );
    assert_eq!(quit_steps(true, false), vec![QuitStep::MarkAndLog, QuitStep::SendError, QuitStep::Cull, QuitStep::ForgetUnknown, QuitStep::Disconnect, QuitStep::DropLocal, QuitStep::Forget]);
    assert_eq!(quit_steps(false, true), vec![QuitStep::MarkAndLog, QuitStep::Cull, QuitStep::AnnounceQuit, QuitStep::Forget]);
    assert_eq!(quit_steps(false, false), vec![QuitStep::MarkAndLog, QuitStep::Cull, QuitStep::ForgetUnknown, QuitStep::Forget]);
}
