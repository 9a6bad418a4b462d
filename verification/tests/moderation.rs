use bws::commands::{tab_complete, Permissions, TabOutcome};
use bws::moderation::{
    apply_ban, login_decision, protocol_supported, run_command, Ban, CommandOutcome, LoginDecision, PlayerRecord,
    PROTOCOL_VERSION,
};

fn s(x: &str) -> String {
    String::from(x)
}

fn moderator() -> Permissions {
    Permissions { owner: false, admin: true, edit_lobby: true, ban_usernames: true, ban_ips: true }
}

fn records() -> Vec<(String, PlayerRecord)> {
    vec![
        (s("alice"), PlayerRecord { permissions: moderator(), banned: None }),
        (s("bob"), PlayerRecord { permissions: Permissions::default(), banned: None }),
    ]
}

#[test]
fn commands_need_permissions() {
    let mut r = records();
    assert_eq!(run_command("/ban alice 5 x", "bob", &mut r), CommandOutcome::NotHandled);
    assert_eq!(run_command("/hello there", "alice", &mut r), CommandOutcome::NotHandled);
    assert_eq!(r, records());
}

#[test]
fn setperm_command() {
    let mut r = records();
    let usage = s("§6Usage: /setperm §e<username> <permission> <true|false>");
    assert_eq!(run_command("/setperm", "alice", &mut r), CommandOutcome::Say(usage.clone()));
    assert_eq!(run_command("/setperm carol admin true", "alice", &mut r), CommandOutcome::Say(s("§6No such player \"carol\".")));
    assert_eq!(run_command("/setperm bob", "alice", &mut r), CommandOutcome::Say(usage.clone()));
    assert_eq!(run_command("/setperm bob flying true", "alice", &mut r), CommandOutcome::Say(s("§6No such permission \"flying\".")));
    assert_eq!(
        run_command("/setperm bob owner true", "alice", &mut r),
        CommandOutcome::Say(s("§6Only owners can set the owner permission."))
    );
    assert_eq!(
        run_command("/setperm bob admin true", "alice", &mut r),
        CommandOutcome::Say(s("§6Only owners can set the admin permission."))
    );
    assert_eq!(run_command("/setperm bob ban_ips", "alice", &mut r), CommandOutcome::Say(usage));
    assert_eq!(
        run_command("/setperm bob ban_ips yes", "alice", &mut r),
        CommandOutcome::Say(s("§6Couldn't parse value: provided string was not `true` or `false`"))
    );
    assert_eq!(r, records());
    assert_eq!(run_command("/setperm bob ban_ips true", "alice", &mut r), CommandOutcome::Saved(s("§7Permission set.")));
    assert!(r[1].1.permissions.ban_ips);
    assert!(!r[1].1.permissions.admin);
    assert_eq!(r[0], records()[0]);
}

#[test]
fn perms_command() {
    let mut r = records();
    let expected = "§l§7§nPermissions of bob:\n§r§o§7Permissions {\n    owner: false,\n    admin: false,\n    edit_lobby: false,\n    ban_usernames: false,\n    ban_ips: false,\n}";
    assert_eq!(run_command("/perms bob", "alice", &mut r), CommandOutcome::Say(s(expected)));
    assert_eq!(format!("{:#?}", Permissions::default()), expected.split("§o§7").nth(1).unwrap());
    match run_command("/perms", "alice", &mut r) {
        CommandOutcome::Say(text) => assert!(text.starts_with("§l§7§nPermissions of alice:") && text.contains("admin: true")),
        other => panic!("{:?}", other),
    }
    assert_eq!(run_command("/perms nobody", "alice", &mut r), CommandOutcome::Say(s("§6No such player \"nobody\".")));
}

#[test]
fn ban_and_login() {
    let mut r = records();
    let usage = s("§6Usage: /ban §e<username> <duration in minutes> <reason>");
    assert_eq!(run_command("/ban bob", "alice", &mut r), CommandOutcome::Say(usage.clone()));
    assert_eq!(run_command("/ban bob 60", "alice", &mut r), CommandOutcome::Say(usage));
    assert_eq!(run_command("/ban bob soon rude", "alice", &mut r), CommandOutcome::BadDuration(s("soon")));
    assert_eq!(run_command("/ban carol 60 rude", "alice", &mut r), CommandOutcome::Say(s("§6No such player \"carol\".")));
    let outcome = run_command("/ban bob 1500 being  very rude", "alice", &mut r);
    assert_eq!(outcome, CommandOutcome::Ban { username: s("bob"), minutes: 1500, reason: s("being  very rude") });
    assert_eq!(r, records());

    let now = 1_000_000;
    let until = now + 1500 * 60_000;
    let reply = apply_ban(&mut r, "bob", 1500, until, "being  very rude", "alice");
    assert_eq!(reply, Some(s("§7Player bob banned for 1 days 1 hours.")));
    assert_eq!(r[1].1.banned, Some(Ban { until, reason: s("being  very rude"), issuer: Some(s("alice")) }));
    assert_eq!(apply_ban(&mut r, "carol", 5, until, "x", "alice"), None);

    let online = vec![s("alice")];
    assert_eq!(
        login_decision("bob", PROTOCOL_VERSION, now, &r, &online),
        LoginDecision::Banned { until, reason: s("being  very rude"), issuer: Some(s("alice")) }
    );
    // once the ban has ended, it no longer counts
    assert_eq!(login_decision("bob", PROTOCOL_VERSION, until, &r, &online), LoginDecision::Accept);

    assert_eq!(run_command("/unban", "alice", &mut r), CommandOutcome::Say(s("§6Usage: /unban §e<username>")));
    assert_eq!(run_command("/unban bob", "alice", &mut r), CommandOutcome::Saved(s("§7Player bob unbanned.")));
    assert_eq!(r, records());
    assert_eq!(login_decision("bob", PROTOCOL_VERSION, now, &r, &online), LoginDecision::Accept);
    assert_eq!(login_decision("bob", 47, now, &r, &online), LoginDecision::Unsupported);
    assert_eq!(login_decision("alice", PROTOCOL_VERSION, now, &r, &online), LoginDecision::NameTaken);
    assert_eq!(login_decision("newcomer", PROTOCOL_VERSION, now, &r, &online), LoginDecision::Accept);
    assert!(protocol_supported(754));
    assert!(!protocol_supported(753));
}

#[test]
fn ip_bans() {
    let mut r = records();
    assert_eq!(run_command("/banip", "alice", &mut r), CommandOutcome::Say(s("§6Usage: /banip §e<ip address>")));
    assert_eq!(run_command("/banip 10.0.0.1", "alice", &mut r), CommandOutcome::BanIp(s("10.0.0.1")));
    assert_eq!(run_command("/unbanip 10.0.0.1", "alice", &mut r), CommandOutcome::UnbanIp(s("10.0.0.1")));
}

#[test]
fn moderation_tab_completion() {
    let names = vec![s("alice"), s("bob"), s("albert")];
    let p = moderator();
    assert_eq!(tab_complete("/ban", &p, &names), TabOutcome::Nothing);
    assert_eq!(
        tab_complete("/ban al", &p, &names),
        TabOutcome::Matches { start: 5, end: 7, matches: vec![s("alice"), s("albert")] }
    );
    assert_eq!(tab_complete("/ban alice 5", &p, &names), TabOutcome::Nothing);
    assert_eq!(
        tab_complete("/setperm bob ban", &p, &names),
        TabOutcome::Matches { start: 13, end: 16, matches: vec![s("ban_usernames"), s("ban_ips")] }
    );
    assert_eq!(
        tab_complete("/setperm ", &p, &names),
        TabOutcome::Matches { start: 9, end: 9, matches: names.clone() }
    );
    assert_eq!(tab_complete("/ban al", &Permissions::default(), &names), TabOutcome::Nothing);
    assert_eq!(tab_complete("/tp al", &p, &names), TabOutcome::NotHandled);
}
