use bws::chat::{parse_json, ChatComponent};
use bws::commands::{
    complete, handles_command, human_readable_duration, last_word_of, may_set, parse_bool,
    permission_named, set_permission, Permission, Permissions, SetPermError,
};
use bws::text::{format_i64, parse_i32, parse_u64, split_str, starts_with, str_eq};

fn plain(text: &str) -> ChatComponent {
    ChatComponent {
        text: Some(String::from(text)),
        bold: None,
        obfuscated: None,
        strikethrough: None,
        underlined: None,
        italic: None,
        color: None,
    }
}

fn same(a: &ChatComponent, b: &ChatComponent) -> bool {
    a.text == b.text
        && a.bold == b.bold
        && a.obfuscated == b.obfuscated
        && a.strikethrough == b.strikethrough
        && a.underlined == b.underlined
        && a.italic == b.italic
        && a.color == b.color
}

#[test]
fn chat_without_codes() {
    let c = parse_json("hello");
    assert_eq!(c.len(), 1);
    assert!(same(&c[0], &plain("hello")));
}

#[test]
fn chat_empty_text() {
    let c = parse_json("");
    assert_eq!(c.len(), 1);
    assert!(same(&c[0], &plain("")));
}

#[test]
fn chat_codes_open_components() {
    let c = parse_json("Hi§cthere");
    assert_eq!(c.len(), 2);
    assert!(same(&c[0], &plain("Hi")));
    assert!(same(&c[1], &ChatComponent { color: Some("red"), ..plain("there") }));

    let c = parse_json("§l§4Bold red");
    assert_eq!(c.len(), 1);
    assert!(same(&c[0], &ChatComponent { bold: Some(true), color: Some("dark_red"), ..plain("Bold red") }));
}

#[test]
fn chat_reset_and_unknown_codes() {
    let c = parse_json("a§rb§#c");
    assert_eq!(c.len(), 3);
    assert!(same(&c[0], &plain("a")));
    assert!(same(
        &c[1],
        &ChatComponent {
            bold: Some(false),
            obfuscated: Some(false),
            strikethrough: Some(false),
            underlined: Some(false),
            italic: Some(false),
            color: Some("reset"),
            ..plain("b")
        }
    ));
    // an unknown code still opens a component, with nothing set
    assert!(same(&c[2], &plain("c")));
}

#[test]
fn chat_escapes() {
    let c = parse_json("\\§a\\\\");
    assert_eq!(c.len(), 1);
    assert!(same(&c[0], &plain("§a\\")));
    // a code with nothing after it
    let c = parse_json("x§");
    assert_eq!(c.len(), 1);
    assert!(same(&c[0], &plain("x")));
    let c = parse_json("§o§n§m§k");
    assert_eq!(c.len(), 1);
    assert!(same(
        &c[0],
        &ChatComponent {
            text: Some(String::new()),
            italic: Some(true),
            underlined: Some(true),
            strikethrough: Some(true),
            obfuscated: Some(true),
            bold: None,
            color: None,
        }
    ));
}

#[test]
fn integers() {
    assert_eq!(parse_i32("0"), Some(0));
    assert_eq!(parse_i32("+5"), Some(5));
    assert_eq!(parse_i32("-2147483648"), Some(i32::MIN));
    assert_eq!(parse_i32("2147483647"), Some(i32::MAX));
    assert_eq!(parse_i32("2147483648"), None);
    assert_eq!(parse_i32("99999999999999999999999"), None);
    assert_eq!(parse_i32(""), None);
    assert_eq!(parse_i32("-"), None);
    assert_eq!(parse_i32("12a"), None);
    assert_eq!(parse_i32(" 1"), None);
    assert_eq!(parse_u64("18446744073709551615"), Some(u64::MAX));
    assert_eq!(parse_u64("18446744073709551616"), None);
    assert_eq!(parse_u64("-1"), None);
    assert_eq!(parse_u64("+7"), Some(7));
    assert_eq!(format_i64(0), "0");
    assert_eq!(format_i64(-120), "-120");
    assert_eq!(format_i64(i64::MIN), "-9223372036854775808");
}

#[test]
fn strings() {
    assert!(str_eq("abc", "abc"));
    assert!(!str_eq("abc", "abd"));
    assert!(!str_eq("ab", "abc"));
    assert!(starts_with("/setblock 1", "/setblock "));
    assert!(!starts_with("/set", "/setblock"));
    assert!(starts_with("x", ""));
    assert_eq!(split_str("1.2.3", '.'), vec!["1", "2", "3"]);
    assert_eq!(split_str("", '.'), vec![""]);
    assert_eq!(split_str("a..b.", '.'), vec!["a", "", "b", ""]);
}

#[test]
fn ban_durations() {
    assert_eq!(human_readable_duration(0), "0 minutes");
    assert_eq!(human_readable_duration(1), "1 minutes");
    assert_eq!(human_readable_duration(60), "1 hours");
    assert_eq!(human_readable_duration(90), "1 hours 30 minutes");
    assert_eq!(human_readable_duration(1440), "1 days");
    assert_eq!(human_readable_duration(10080), "1 weeks");
    assert_eq!(human_readable_duration(10081), "1 weeks 1 minutes");
    assert_eq!(human_readable_duration(20160 + 2 * 1440 + 3 * 60 + 4), "2 weeks 2 days 3 hours 4 minutes");
    assert_eq!(human_readable_duration(-5), "-5 minutes");
}

#[test]
fn command_permissions() {
    let nobody = Permissions::default();
    let admin = Permissions { admin: true, ..Permissions::default() };
    let owner = Permissions { owner: true, ..Permissions::default() };
    let banner = Permissions { ban_usernames: true, ban_ips: true, ..Permissions::default() };
    assert!(!handles_command("/ban", &nobody));
    assert!(handles_command("/ban", &banner));
    assert!(handles_command("/unbanip", &banner));
    assert!(handles_command("/setperm", &owner));
    assert!(handles_command("/setperm", &admin));
    assert!(!handles_command("/perms", &owner));
    assert!(handles_command("/perms", &admin));
    assert!(!handles_command("/help", &admin));

    assert_eq!(permission_named("edit_lobby"), Some(Permission::EditLobby));
    assert_eq!(permission_named("root"), None);
    assert_eq!(may_set(&admin, Permission::Owner), Err(SetPermError::OnlyOwners));
    assert_eq!(may_set(&admin, Permission::BanIps), Ok(()));
    assert_eq!(may_set(&owner, Permission::Admin), Ok(()));
    assert_eq!(may_set(&owner, Permission::EditLobby), Err(SetPermError::OnlyAdmins));

    let mut p = nobody;
    set_permission(&mut p, Permission::EditLobby, true);
    assert_eq!(p, Permissions { edit_lobby: true, ..Permissions::default() });
    assert_eq!(parse_bool("true"), Some(true));
    assert_eq!(parse_bool("false"), Some(false));
    assert_eq!(parse_bool("True"), None);
}

#[test]
fn tab_completion() {
    let names = vec![String::from("alice"), String::from("bob"), String::from("alfred")];
    assert_eq!(complete(&names, "al"), vec!["alice", "alfred"]);
    assert_eq!(complete(&names, ""), vec!["alice", "bob", "alfred"]);
    assert_eq!(complete(&names, "z"), Vec::<String>::new());
    assert_eq!(last_word_of("/ban al"), Some((0, 5, String::from("al"))));
    assert_eq!(last_word_of("/setperm bob ad"), Some((1, 13, String::from("ad"))));
    assert_eq!(last_word_of("/ban "), Some((0, 5, String::new())));
    assert_eq!(last_word_of("/ban"), None);
}
