use bws::datatypes::{CommandNode, VarInt};
use bws::login::{parse_accounts, password_hash, to_hex, Accounts, AccountsError, LoginAction, LoginWorld};

const PASSWORD_HASH: &str = "5e884898da28047151d0e56f8dc6292773603d0d6aabbdd62a11ef721d1542d8";

#[test]
fn password_hashes() {
    assert_eq!(password_hash("password"), PASSWORD_HASH);
    assert_eq!(
        password_hash(""),
        "e3b0c44298fc1c149afbf4c8996fb92427ae41e4649b934ca495991b7852b855"
    );
    assert_eq!(to_hex(&[0x00, 0x0f, 0xa0, 0xff]), "000fa0ff");
}

#[test]
fn accounts_file() {
    let text = "alice abc\r\nbob def extra\n\nalice xyz";
    let err = parse_accounts(text);
    // the empty line has no space
    assert_eq!(err.err(), Some(AccountsError::IncorrectFormat(2)));
    let a = parse_accounts("alice abc\r\nbob def extra\nalice xyz\n").unwrap();
    assert_eq!(a.get("alice").map(|s| s.as_str()), Some("xyz"));
    assert_eq!(a.get("bob").map(|s| s.as_str()), Some("def"));
    assert_eq!(a.get("carol"), None);
    assert_eq!(a.to_file(), "bob def\nalice xyz\n");
    assert!(parse_accounts("").unwrap().entries.is_empty());
    assert_eq!(parse_accounts("nospace\n").err(), Some(AccountsError::IncorrectFormat(0)));
}

#[test]
fn saved_accounts_read_back() {
    let mut a = Accounts::new();
    a.insert(String::from("alice"), String::from("h1"));
    a.insert(String::from("bob"), String::from("h2"));
    a.insert(String::from("alice"), String::from("h3"));
    let b = parse_accounts(&a.to_file()).unwrap();
    for name in ["alice", "bob", "carol"] {
        assert_eq!(a.get(name), b.get(name));
    }
}

#[test]
fn register_then_login() {
    let mut w = LoginWorld { accounts: Accounts::new() };
    assert_eq!(w.handle_chat("steve", "/login password"), LoginAction::Ignore);
    assert_eq!(w.handle_chat("steve", "/register password"), LoginAction::Ignore);
    assert_eq!(w.handle_chat("steve", "/register password password"), LoginAction::Registered { mismatch: false });
    assert_eq!(w.accounts.get("steve").map(|s| s.as_str()), Some(PASSWORD_HASH));
    // registering again does nothing
    assert_eq!(w.handle_chat("steve", "/register other other"), LoginAction::Ignore);
    assert_eq!(w.handle_chat("steve", "/login password"), LoginAction::EnterLobby);
    assert_eq!(w.handle_chat("steve", "/login wrong"), LoginAction::IncorrectPassword);
    assert_eq!(w.handle_chat("steve", "hello"), LoginAction::Ignore);
    // mismatched passwords: the first one counts
    assert_eq!(w.handle_chat("alex", "/register password typo"), LoginAction::Registered { mismatch: true });
    assert_eq!(w.handle_chat("alex", "/login password"), LoginAction::EnterLobby);
}

#[test]
fn declared_commands_depend_on_registration() {
    let mut world = LoginWorld { accounts: Accounts::new() };
    let nodes = world.declared_commands("steve");
    assert_eq!(nodes.len(), 3);
    assert!(matches!(&nodes[0], CommandNode::Root(c) if c.as_slice() == [VarInt(1)]));
    assert!(matches!(&nodes[1], CommandNode::Literal(false, c, None, name)
        if name == "register" && c.as_slice() == [VarInt(2)]));
    assert!(matches!(&nodes[2], CommandNode::Argument(false, c, None, name, _, false)
        if name == "password" && c.as_slice() == [VarInt(3)]));
    world.accounts.insert(String::from("steve"), password_hash("pw"));
    let nodes = world.declared_commands("steve");
    assert!(matches!(&nodes[1], CommandNode::Literal(false, _, None, name) if name == "login"));
    assert!(matches!(&nodes[2], CommandNode::Argument(true, c, None, _, _, false) if c.is_empty()));
    // another player is still asked to register
    let nodes = world.declared_commands("alex");
    assert!(matches!(&nodes[1], CommandNode::Literal(_, _, _, name) if name == "register"));
}
