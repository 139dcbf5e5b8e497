use bladedance::colors::process_colors;
use bladedance::mode::clean_mask;
use bladedance::configreader::parse_duration;
use bladedance::helperfuncs::Duration;
use bladedance::account::AccountAPI;
use bladedance::cmd_admin::CommandAdmin;
use bladedance::inspircd::{check_root, plan_startup, CommandLineFlags, RootCheck, StartupAction};
use bladedance::m_shun::{
    is_client_only_tag, is_shunned, on_stats, plan_pre_command, plan_shun, shun_added_message,
    shun_exists_notice, shun_invalid_duration_notice, shun_not_found_notice, shun_removed_message,
    shun_target, CmdResult, ModResult, ShunRequest, ShunSettings,
};
use bladedance::snomasks::{is_snomask, slot_any_case, snomask_is_usable, SendStep, Snomask};
use bladedance::traits::Params;
use bladedance::users::{
    filter_irc_line, fmt_nick_user_host, fmt_user_at_host, normalize_addr_display,
    snomask_char_is_valid, user_mode_letters, SetMode,
};

fn flags() -> CommandLineFlags {
    CommandLineFlags {
        config: None,
        debug: false,
        nofork: false,
        help: false,
        nolog: false,
        protocoldebug: false,
        nopid: false,
        runasroot: false,
        version: false,
    }
}

#[test]
fn startup_defaults_use_the_default_config() {
    let plan = plan_startup(flags(), Some("conf/inspircd.toml".to_string()));
    assert_eq!(plan.action, StartupAction::Run);
    assert_eq!(plan.config_path, "conf/inspircd.toml");
    assert!(!plan.debug && !plan.nofork && plan.writelog && plan.writepid);
    let plan = plan_startup(flags(), None);
    assert_eq!(plan.config_path, "inspircd.conf");
}

#[test]
fn startup_protocol_debug_implies_debug_and_nofork() {
    let mut f = flags();
    f.protocoldebug = true;
    f.nolog = true;
    f.config = Some("x.conf".to_string());
    let plan = plan_startup(f, Some("y.conf".to_string()));
    assert_eq!(plan.action, StartupAction::Run);
    assert_eq!(plan.config_path, "x.conf");
    assert!(plan.debug && plan.nofork && plan.forceprotodebug);
    assert!(!plan.writelog && plan.writepid);
}

#[test]
fn startup_help_comes_before_version() {
    let mut f = flags();
    f.help = true;
    f.version = true;
    assert_eq!(plan_startup(f, None).action, StartupAction::PrintHelp);
    let mut f = flags();
    f.version = true;
    assert_eq!(plan_startup(f, None).action, StartupAction::PrintVersion);
}

#[test]
fn root_check_outcomes() {
    assert_eq!(check_root(1000, 1000, true), RootCheck::Proceed);
    assert_eq!(check_root(0, 1000, true), RootCheck::WarnAndWait);
    assert_eq!(check_root(1000, 0, false), RootCheck::WarnAndExit);
}

#[test]
fn shun_requests() {
    assert_eq!(plan_shun(1, Err(())), ShunRequest::Remove);
    assert_eq!(plan_shun(2, Err(())), ShunRequest::Add { duration: 0, reason_index: 1 });
    assert_eq!(plan_shun(3, Ok(3600)), ShunRequest::Add { duration: 3600, reason_index: 2 });
    assert_eq!(plan_shun(3, Err(())), ShunRequest::InvalidDuration);
}

#[test]
fn shun_targets_and_messages() {
    assert_eq!(shun_target("nick", Some(("~user".to_string(), "10.0.0.1".to_string()))), "*!~user@10.0.0.1");
    assert_eq!(shun_target("*!*@host", None), "*!*@host");
    assert_eq!(shun_removed_message("oper", "*!*@h", "spamming"), "oper removed SHUN on *!*@h: spamming");
    assert_eq!(shun_not_found_notice("m"), "*** Shun m not found on the list.");
    assert_eq!(shun_invalid_duration_notice(), "*** Invalid duration for SHUN.");
    assert_eq!(shun_added_message("oper", "t", 0, "", "", "spam"), "oper added permanent SHUN for t: spam");
    assert_eq!(
        shun_added_message("oper", "t", 60, "1 minute", "Mon Jan 01 00:01:00 2024", "spam"),
        "oper added a timed SHUN on t, expires in 1 minute (on Mon Jan 01 00:01:00 2024): spam"
    );
    assert_eq!(shun_exists_notice("t"), "*** Shun for t already exists.");
}

#[test]
fn shun_exemptions_and_stats() {
    let mut s = ShunSettings::new();
    assert!(is_shunned(&s, false, false, true));
    assert!(!is_shunned(&s, true, true, true));
    assert!(!is_shunned(&s, true, false, false));
    s.read_config(true, false, true);
    assert!(!is_shunned(&s, false, false, true));
    assert_eq!(on_stats(b'H'), ModResult::MOD_RES_DENY);
    assert_eq!(on_stats(b'h'), ModResult::MOD_RES_PASSTHRU);
    assert!(is_client_only_tag(b"+typing"));
    assert!(!is_client_only_tag(b"time"));
    assert!(!is_client_only_tag(b""));
    assert_eq!(CmdResult::FAILURE.value(), 1);
}

#[test]
fn shun_pre_command_plans() {
    let s = ShunSettings::new();
    let p = plan_pre_command("PRIVMSG", false, false, false, false, &s, 2);
    assert_eq!(p.result, ModResult::MOD_RES_PASSTHRU);
    assert!(p.notice.is_none());
    let p = plan_pre_command("PRIVMSG", false, true, false, false, &s, 2);
    assert_eq!(p.result, ModResult::MOD_RES_DENY);
    assert_eq!(
        p.notice.as_deref(),
        Some("*** PRIVMSG command not processed as you have been blocked from issuing commands.")
    );
    let p = plan_pre_command("QUIT", false, true, true, true, &s, 0);
    assert_eq!(p.result, ModResult::MOD_RES_PASSTHRU);
    assert!(p.clear_params && p.strip_client_tags);
    let p = plan_pre_command("PART", false, true, true, true, &s, 1);
    assert_eq!(p.resize_params, Some(1));
    assert!(!p.clear_params);
    let p = plan_pre_command("PART", true, true, false, true, &s, 1);
    assert_eq!(p.result, ModResult::MOD_RES_PASSTHRU);
    assert_eq!(p.resize_params, None);
}

#[test]
fn snomask_letters_and_descriptions() {
    assert!(is_snomask(b'a') && is_snomask(b'Z') && !is_snomask(b'1'));
    assert_eq!(slot_any_case(b'c'), Some(2));
    assert_eq!(slot_any_case(b'C'), Some(2));
    assert_eq!(slot_any_case(b'!'), None);
    assert!(snomask_is_usable(b'o', Some("OPER")));
    assert!(!snomask_is_usable(b'o', Some("")));
    assert!(!snomask_is_usable(b'#', Some("X")));
    let mut m = Snomask::new();
    assert_eq!(m.get_description(b'x'), "SNO-x");
    assert_eq!(m.get_description(b'X'), "REMOTESNO-x");
    m.description = "KILL".to_string();
    assert_eq!(m.get_description(b'K'), "REMOTEKILL");
}

#[test]
fn snomask_repeats_are_stacked_then_flushed() {
    let mut m = Snomask::new();
    m.description = "OPER".to_string();
    let first = match m.begin_send("hello", b'o', false) {
        SendStep::Flushed { repeated, description } => {
            assert!(repeated.is_none());
            description
        }
        SendStep::Stacked => panic!("first notice stacked"),
    };
    assert_eq!(first, "OPER");
    let sent = m.finish_send("hello", b'o', false).unwrap();
    assert_eq!(sent.message, "hello");
    assert_eq!(m.count, 1);
    assert!(matches!(m.begin_send("hello", b'o', false), SendStep::Stacked));
    assert!(matches!(m.begin_send("hello", b'o', false), SendStep::Stacked));
    assert_eq!(m.count, 3);
    let n = m.flush().unwrap();
    assert_eq!(n.message, "(last message repeated 3 times)");
    assert_eq!(n.description, "OPER");
    assert_eq!(m.count, 0);
    assert!(m.flush().is_none());
}

#[test]
fn snomask_without_stacking_sends_every_notice() {
    let mut m = Snomask::new();
    let _ = m.begin_send("a", b'x', true);
    let _ = m.finish_send("a", b'x', false);
    assert!(matches!(m.begin_send("a", b'x', true), SendStep::Flushed { .. }));
    assert!(m.finish_send("a", b'x', true).is_none());
}

#[test]
fn user_masks_and_lines() {
    assert_eq!(fmt_user_at_host(b"u", b"h"), b"u@h".to_vec());
    assert_eq!(fmt_nick_user_host(b"n", b"u", b"h"), b"n!u@h".to_vec());
    assert_eq!(normalize_addr_display(b"::1"), b"0::1".to_vec());
    assert_eq!(normalize_addr_display(b"1.2.3.4"), b"1.2.3.4".to_vec());
    assert_eq!(filter_irc_line(b"PING\0x\r"), b"PING x".to_vec());
    assert!(snomask_char_is_valid(b'q') && !snomask_char_is_valid(b'5'));
}

#[test]
fn user_mode_strings() {
    let modes = vec![
        SetMode { letter: b'i', param: None },
        SetMode { letter: 0, param: None },
        SetMode { letter: b's', param: Some(b"+cK".to_vec()) },
        SetMode { letter: b'x', param: Some(Vec::new()) },
    ];
    assert_eq!(user_mode_letters(&modes, true), b"+isx +cK".to_vec());
    assert_eq!(user_mode_letters(&modes, false), b"+isx".to_vec());
    assert_eq!(user_mode_letters(&Vec::new(), true), b"+".to_vec());
}

#[test]
fn account_names() {
    let api = AccountAPI::new();
    assert_eq!(api.account_name_from(Some("alice".to_string())), Some("alice".to_string()));
    assert_eq!(api.account_name_from(Some(String::new())), None);
    assert_eq!(api.account_name_from(None), None);
    assert!(api.is_logged_in_as(&Some("a".to_string())));
    assert_eq!(api.account_details_from(Some("bob".to_string())).unwrap().name, "bob");
}

#[test]
fn admin_replies() {
    let mut c = CommandAdmin::new();
    c.set_admin_name("Root");
    c.set_admin_email("root@example.org");
    let (handled, lines) = c.handle_admin(1, "irc.example.org");
    assert!(handled);
    assert_eq!(
        lines,
        vec![
            "256 irc.example.org :Administrative info".to_string(),
            "257 irc.example.org :Root".to_string(),
            "258 irc.example.org :".to_string(),
            "259 irc.example.org :root@example.org".to_string(),
        ]
    );
    let (handled, lines) = c.handle_admin(0, "irc.example.org");
    assert!(handled);
    assert_eq!(lines, vec!["256 irc.example.org :User level of above 0 is required to execute this command".to_string()]);
}

#[test]
fn params_access() {
    let p = Params::new(vec!["a".to_string(), "b".to_string()]);
    assert_eq!(p.len(), 2);
    assert_eq!(p.get(1).map(|s| s.as_str()), Some("b"));
    assert!(p.get(2).is_none());
    assert!(!p.is_empty());
    assert!(Params::new(Vec::new()).is_empty());
}

#[test]
fn admin_reply_as_one_text() {
    let mut c = CommandAdmin::new();
    c.set_admin_name("Alice");
    c.set_admin_description("Desc");
    c.set_admin_email("a@b.c");
    assert_eq!(
        c.reply_text(2, "irc.test"),
        "256 irc.test :Administrative info\n257 irc.test :Alice\n258 irc.test :Desc\n259 irc.test :a@b.c"
    );
    assert_eq!(
        c.reply_text(0, "s"),
        "256 s :User level of above 0 is required to execute this command"
    );
}

#[test]
fn ban_masks_are_cleaned() {
    assert_eq!(clean_mask("nick"), "nick!*@*");
    assert_eq!(clean_mask("user@host"), "*!user@host");
    assert_eq!(clean_mask("example.com"), "*!*@example.com");
    assert_eq!(clean_mask("nick!user"), "nick!user@*");
    assert_eq!(clean_mask("nick!@host"), "nick!*@host");
    assert_eq!(clean_mask("n!u@h"), "n!u@h");
}

#[test]
fn durations_that_overflow_give_nothing() {
    assert_eq!(parse_duration("18446744073709551615s1s"), None);
    assert_eq!(parse_duration("18446744073709551615s"), Some(u64::MAX));
    assert_eq!(parse_duration("1y2w3d4h5m6s"), Some(31557600 + 1209600 + 259200 + 14400 + 300 + 6));
}

#[test]
fn long_durations_read_as_english() {
    assert_eq!(Duration::to_long_string(33004800, false), "1 year, 2 weeks and 3 days");
    assert_eq!(Duration::to_long_string(3660, false), "1 hour and 1 minute");
    assert_eq!(Duration::to_long_string(1, false), "1 second");
}

#[test]
fn unclosed_colour_values_are_dropped() {
    let mut s = String::from(r"\b\c{red");
    process_colors(&mut s);
    assert_eq!(s, "\x02");
    let mut s = String::from(r"ab\c{red,blue");
    process_colors(&mut s);
    assert_eq!(s, "ab");
    let mut s = String::from(r"\c{red,blue}x");
    process_colors(&mut s);
    assert_eq!(s, "\x034,2x");
}
