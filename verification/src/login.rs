//! The login world: accounts are usernames with the SHA-256 hash of their
//! password, kept one per line in a file, and players log in with `/login`
//! or sign up with `/register` before they may enter the lobby.
use crate::datatypes::{CommandNode, CommandNodeView, Parser, VarInt};
use crate::text::{split_on, split_str, starts_with, str_eq, chars_of, string_from_chars};
use vstd::prelude::*;
use vstd::utf8::encode_utf8;

verus! {

/// The SHA-256 digest of some bytes.
pub uninterp spec fn sha256_digest(data: Seq<u8>) -> Seq<u8>;

/// Calls `sha2::Sha256::digest`: the 32 bytes of the digest, named `sha256_digest`.
#[verifier::external_body]
fn sha256(data: &[u8]) -> (res: Vec<u8>)
    ensures
        res@ == sha256_digest(data@),
        res@.len() == 32,
{
    <sha2::Sha256 as sha2::Digest>::digest(data).to_vec()
}

/// A lowercase hexadecimal digit.
pub open spec fn hex_digit(d: u8) -> char {
    if d < 10 {
        ('0' as u8 + d) as char
    } else {
        ('a' as u8 + d - 10) as char
    }
}

/// Bytes in lowercase hexadecimal, two digits each, as `{:x}` writes a digest.
pub open spec fn hex(b: Seq<u8>) -> Seq<char>
    decreases b.len(),
{
    if b.len() == 0 {
        Seq::empty()
    } else {
        hex(b.drop_last()) + seq![hex_digit(b.last() >> 4u8), hex_digit(b.last() & 0xfu8)]
    }
}

fn hex_digit_exec(d: u8) -> (c: char)
    requires
        d < 16,
    ensures
        c == hex_digit(d),
{
    if d < 10 {
        ('0' as u8 + d) as char
    } else {
        ('a' as u8 + d - 10) as char
    }
}

/// Writes bytes in lowercase hexadecimal.
pub fn to_hex(b: &[u8]) -> (res: String)
    ensures
        res@ == hex(b@),
{
    let mut out: Vec<char> = Vec::new();
    let mut i: usize = 0;
    while i < b.len()
        invariant
            i <= b@.len(),
            out@ == hex(b@.take(i as int)),
        decreases b@.len() - i,
    {
        let x = b[i];
        assert(x >> 4u8 < 16 && x & 0xfu8 < 16) by (bit_vector);
        out.push(hex_digit_exec(x >> 4));
        out.push(hex_digit_exec(x & 0xf));
        i = i + 1;
        assert(b@.take(i as int).drop_last() =~= b@.take(i - 1));
    }
    assert(b@.take(b@.len() as int) =~= b@);
    string_from_chars(&out)
}

/// What the accounts file keeps of a password: the SHA-256 hash of its UTF-8
/// bytes, in hexadecimal.
pub open spec fn spec_password_hash(password: Seq<char>) -> Seq<char> {
    hex(sha256_digest(encode_utf8(password)))
}

pub fn password_hash(password: &str) -> (res: String)
    ensures
        res@ == spec_password_hash(password@),
{
    let digest = sha256(password.as_bytes());
    to_hex(digest.as_slice())
}

/// The registered accounts: (username, password hash) pairs; a later pair
/// for a username replaces the earlier ones.
#[derive(Clone, Debug)]
pub struct Accounts {
    pub entries: Vec<(String, String)>,
}

pub open spec fn accounts_map(entries: Seq<(String, String)>) -> Map<Seq<char>, Seq<char>>
    decreases entries.len(),
{
    if entries.len() == 0 {
        Map::empty()
    } else {
        accounts_map(entries.drop_last()).insert(entries.last().0@, entries.last().1@)
    }
}

impl Accounts {
    /// Each username with the hash of its password.
    pub open spec fn view(&self) -> Map<Seq<char>, Seq<char>> {
        accounts_map(self.entries@)
    }

    pub fn new() -> (res: Self)
        ensures
            res@ == Map::<Seq<char>, Seq<char>>::empty(),
    {
        Accounts { entries: Vec::new() }
    }

    /// The hash of a user's password, if the user is registered.
    pub fn get(&self, username: &str) -> (res: Option<&String>)
        ensures
            match res {
                Some(h) => self@.contains_key(username@) && self@[username@] == h@,
                None => !self@.contains_key(username@),
            },
    {
        let mut i: usize = self.entries.len();
        while i > 0
            invariant
                i <= self.entries@.len(),
                forall|j: int|
                    i <= j < self.entries@.len() ==> self.entries@[j].0@ != username@,
            decreases i,
        {
            i = i - 1;
            if str_eq(self.entries[i].0.as_str(), username) {
                proof {
                    lemma_last_entry(self.entries@, username@, i as int);
                }
                return Some(&self.entries[i].1);
            }
        }
        proof {
            lemma_last_entry(self.entries@, username@, -1);
        }
        None
    }

    /// Registers a user, replacing any password it had.
    pub fn insert(&mut self, username: String, hash: String)
        ensures
            final(self)@ == old(self)@.insert(username@, hash@),
    {
        self.entries.push((username, hash));
        assert(self.entries@.drop_last() =~= old(self).entries@);
    }
}

/// The map has the value of the last entry with the key, where no later entry
/// has it; without such an entry (`i` is -1) the key is absent.
proof fn lemma_last_entry(entries: Seq<(String, String)>, key: Seq<char>, i: int)
    requires
        -1 <= i < entries.len(),
        i >= 0 ==> entries[i].0@ == key,
        forall|j: int| i < j < entries.len() ==> entries[j].0@ != key,
    ensures
        i >= 0 ==> accounts_map(entries).contains_key(key) && accounts_map(entries)[key]
            == entries[i].1@,
        i < 0 ==> !accounts_map(entries).contains_key(key),
    decreases entries.len(),
{
    if entries.len() > 0 && i < entries.len() - 1 {
        lemma_last_entry(entries.drop_last(), key, i);
    }
}

// The accounts file //
///////////////////////

/// The lines of a text, as `BufRead::lines` gives them: split at each `\n`,
/// a `\r` before it dropped, and no line after a final `\n`.
pub open spec fn lines(text: Seq<char>) -> Seq<Seq<char>> {
    let p = split_on(text, '\n');
    let n = p.len();
    let count = if p[n - 1].len() == 0 {
        n - 1
    } else {
        n as int
    };
    Seq::new(
        count as nat,
        |i: int|
            if i < n - 1 && p[i].len() > 0 && p[i].last() == '\r' {
                p[i].drop_last()
            } else {
                p[i]
            },
    )
}

/// Why the accounts file could not be read.
#[derive(Clone, Copy, Debug, PartialEq, Eq, Structural)]
pub enum AccountsError {
    /// Incorrect accounts file format: line `i` has no space
    IncorrectFormat(usize),
}

/// The accounts in a file: each line a username, a space and the password
/// hash, anything after a second space ignored.
pub open spec fn parse_accounts_spec(text: Seq<char>) -> Result<Map<Seq<char>, Seq<char>>, AccountsError> {
    parse_lines(lines(text), 0, Map::empty())
}

pub open spec fn parse_lines(
    ls: Seq<Seq<char>>,
    i: int,
    acc: Map<Seq<char>, Seq<char>>,
) -> Result<Map<Seq<char>, Seq<char>>, AccountsError>
    decreases ls.len() - i,
{
    if i < 0 || i >= ls.len() {
        Ok(acc)
    } else {
        let fields = split_on(ls[i], ' ');
        if fields.len() < 2 {
            Err(AccountsError::IncorrectFormat(i as usize))
        } else {
            parse_lines(ls, i + 1, acc.insert(fields[0], fields[1]))
        }
    }
}

proof fn lemma_split_nonempty(s: Seq<char>, sep: char)
    ensures
        split_on(s, sep).len() >= 1,
    decreases s.len(),
{
    if s.len() > 0 {
        lemma_split_nonempty(s.drop_last(), sep);
    }
}

/// The lines of a text.
fn lines_of(text: &str) -> (res: Vec<String>)
    ensures
        res@.len() == lines(text@).len(),
        forall|i: int| 0 <= i < res@.len() ==> (#[trigger] res@[i])@ == lines(text@)[i],
{
    let pieces = split_str(text, '\n');
    proof {
        lemma_split_nonempty(text@, '\n');
    }
    let n = pieces.len();
    let count = if pieces[n - 1].as_str().unicode_len() == 0 {
        n - 1
    } else {
        n
    };
    let mut res: Vec<String> = Vec::new();
    let mut i: usize = 0;
    while i < count
        invariant
            n == pieces@.len(),
            n == split_on(text@, '\n').len(),
            forall|k: int| 0 <= k < n ==> (#[trigger] pieces@[k])@ == split_on(text@, '\n')[k],
            count == lines(text@).len(),
            count <= n,
            i <= count,
            res@.len() == i,
            forall|k: int| 0 <= k < i ==> (#[trigger] res@[k])@ == lines(text@)[k],
        decreases count - i,
    {
        let chars = chars_of(pieces[i].as_str());
        if i < n - 1 && chars.len() > 0 && chars[chars.len() - 1] == '\r' {
            let mut stripped: Vec<char> = Vec::new();
            let mut k: usize = 0;
            while k < chars.len() - 1
                invariant
                    chars@.len() > 0,
                    k <= chars@.len() - 1,
                    stripped@ == chars@.take(k as int),
                decreases chars@.len() - 1 - k,
            {
                stripped.push(chars[k]);
                k = k + 1;
                assert(stripped@ =~= chars@.take(k as int));
            }
            assert(stripped@ =~= chars@.drop_last());
            res.push(string_from_chars(&stripped));
        } else {
            res.push(string_from_chars(&chars));
        }
        i = i + 1;
    }
    res
}

/// Reads the accounts file.
pub fn parse_accounts(text: &str) -> (res: Result<Accounts, AccountsError>)
    ensures
        match res {
            Ok(a) => parse_accounts_spec(text@) == Ok::<Map<Seq<char>, Seq<char>>, AccountsError>(a@),
            Err(e) => parse_accounts_spec(text@) == Err::<Map<Seq<char>, Seq<char>>, AccountsError>(e),
        },
{
    let ls = lines_of(text);
    let mut accounts = Accounts::new();
    let mut i: usize = 0;
    while i < ls.len()
        invariant
            i <= ls@.len(),
            ls@.len() == lines(text@).len(),
            forall|k: int| 0 <= k < ls@.len() ==> (#[trigger] ls@[k])@ == lines(text@)[k],
            parse_accounts_spec(text@) == parse_lines(lines(text@), i as int, accounts@),
        decreases ls@.len() - i,
    {
        let fields = split_str(ls[i].as_str(), ' ');
        if fields.len() < 2 {
            return Err(AccountsError::IncorrectFormat(i));
        }
        accounts.insert(fields[0].clone(), fields[1].clone());
        i = i + 1;
    }
    Ok(accounts)
}

/// Whether entry `i` is the last one of its username: the one that counts.
pub open spec fn live_entry(entries: Seq<(String, String)>, i: int) -> bool {
    forall|j: int| i < j < entries.len() ==> entries[j].0@ != entries[i].0@
}

/// The accounts file: a line "username hash" for each account.
pub open spec fn accounts_file(entries: Seq<(String, String)>) -> Seq<char>
    decreases entries.len(),
{
    if entries.len() == 0 {
        Seq::empty()
    } else {
        let rest = accounts_file(entries.drop_last());
        let e = entries.last();
        rest + e.0@ + seq![' '] + e.1@ + seq!['\n']
    }
}

/// The entries among the first `n` that count, in order.
pub open spec fn live_upto(entries: Seq<(String, String)>, n: int) -> Seq<(String, String)>
    decreases n,
{
    if n <= 0 {
        Seq::empty()
    } else if live_entry(entries, n - 1) {
        live_upto(entries, n - 1).push(entries[n - 1])
    } else {
        live_upto(entries, n - 1)
    }
}

fn push_chars(out: &mut Vec<char>, s: &str)
    ensures
        final(out)@ == old(out)@ + s@,
{
    let chars = chars_of(s);
    let mut i: usize = 0;
    while i < chars.len()
        invariant
            chars@ == s@,
            i <= chars@.len(),
            out@ == old(out)@ + chars@.take(i as int),
        decreases chars@.len() - i,
    {
        out.push(chars[i]);
        i = i + 1;
        assert(out@ =~= old(out)@ + chars@.take(i as int));
    }
    assert(chars@.take(chars@.len() as int) =~= chars@);
}

impl Accounts {
    fn is_live(&self, i: usize) -> (res: bool)
        requires
            i < self.entries@.len(),
        ensures
            res == live_entry(self.entries@, i as int),
    {
        let n = self.entries.len();
        let mut j: usize = i + 1;
        while j < n
            invariant
                n == self.entries@.len(),
                i < j <= self.entries@.len(),
                forall|k: int| i < k < j ==> self.entries@[k].0@ != self.entries@[i as int].0@,
            decreases self.entries@.len() - j,
        {
            if str_eq(self.entries[j].0.as_str(), self.entries[i].0.as_str()) {
                return false;
            }
            j = j + 1;
        }
        true
    }

    /// The text of the accounts file: a line "username hash" for each
    /// account, with the last password each user registered.
    pub fn to_file(&self) -> (res: String)
        ensures
            res@ == accounts_file(live_upto(self.entries@, self.entries@.len() as int)),
    {
        let n = self.entries.len();
        let mut out: Vec<char> = Vec::new();
        let mut i: usize = 0;
        while i < n
            invariant
                n == self.entries@.len(),
                i <= n,
                out@ == accounts_file(live_upto(self.entries@, i as int)),
            decreases n - i,
        {
            if self.is_live(i) {
                let ghost before = live_upto(self.entries@, i as int);
                push_chars(&mut out, self.entries[i].0.as_str());
                out.push(' ');
                push_chars(&mut out, self.entries[i].1.as_str());
                out.push('\n');
                assert(before.push(self.entries@[i as int]).drop_last() =~= before);
            }
            i = i + 1;
        }
        string_from_chars(&out)
    }
}

/// The state of the login world that outlives its players: the accounts.
pub struct LoginWorld {
    pub accounts: Accounts,
}

/// What a chat message in the login world does.
#[derive(Clone, Copy, Debug, PartialEq, Eq, Structural)]
pub enum LoginAction {
    /// nothing: the world only reads `/login` and `/register`
    Ignore,
    /// the password is right: the player moves to the lobby
    EnterLobby,
    /// Incorrect password!
    IncorrectPassword,
    /// the player is now registered and moves to the lobby; `mismatch` when
    /// the two passwords differ, in which case the first one is kept and the
    /// player is told that they do not match
    Registered { mismatch: bool },
}

pub open spec fn has_prefix(s: Seq<char>, prefix: Seq<char>) -> bool {
    prefix.len() <= s.len() && s.subrange(0, prefix.len() as int) == prefix
}

/// `/login <password>` from a registered player compares the password's hash;
/// `/register <password> <password again>` from an unregistered one registers
/// the first password.
pub open spec fn login_action(
    accounts: Map<Seq<char>, Seq<char>>,
    username: Seq<char>,
    message: Seq<char>,
) -> (LoginAction, Map<Seq<char>, Seq<char>>) {
    let words = split_on(message, ' ');
    if has_prefix(message, "/login "@) {
        if accounts.contains_key(username) && words.len() >= 2 {
            if accounts[username] == spec_password_hash(words[1]) {
                (LoginAction::EnterLobby, accounts)
            } else {
                (LoginAction::IncorrectPassword, accounts)
            }
        } else {
            (LoginAction::Ignore, accounts)
        }
    } else if has_prefix(message, "/register "@) {
        if !accounts.contains_key(username) && words.len() >= 3 {
            (
                LoginAction::Registered { mismatch: words[1] != words[2] },
                accounts.insert(username, spec_password_hash(words[1])),
            )
        } else {
            (LoginAction::Ignore, accounts)
        }
    } else {
        (LoginAction::Ignore, accounts)
    }
}

impl LoginWorld {
    /// Handles a chat message of a player in the login world.
    pub fn handle_chat(&mut self, username: &str, message: &str) -> (res: LoginAction)
        ensures
            (res, final(self).accounts@) == login_action(
                old(self).accounts@,
                username@,
                message@,
            ),
    {
        let words = split_str(message, ' ');
        if starts_with(message, "/login ") {
            // make sure the player is already registered
            match self.accounts.get(username) {
                Some(correct_password_hash) => {
                    if words.len() < 2 {
                        return LoginAction::Ignore;
                    }
                    // hash the given password and compare to the correct hash
                    let hash = password_hash(words[1].as_str());
                    if str_eq(correct_password_hash.as_str(), hash.as_str()) {
                        LoginAction::EnterLobby
                    } else {
                        LoginAction::IncorrectPassword
                    }
                },
                None => LoginAction::Ignore,
            }
        } else if starts_with(message, "/register ") {
            if self.accounts.get(username).is_some() || words.len() < 3 {
                return LoginAction::Ignore;
            }
            let mismatch = !str_eq(words[1].as_str(), words[2].as_str());
            // register the gentleman
            let hash = password_hash(words[1].as_str());
            self.accounts.insert(String::from_str(username), hash);
            LoginAction::Registered { mismatch }
        } else {
            LoginAction::Ignore
        }
    }
}

/// The commands a player in the login world is told of: a registered player
/// only `/login <password>`, an unregistered one only
/// `/register <password> ...`, both with single-word passwords.
pub open spec fn login_command_tree(registered: bool) -> Seq<CommandNodeView> {
    let single_word = Parser::String(VarInt(0));
    if registered {
        seq![
            CommandNodeView::Root(seq![VarInt(1)]),
            CommandNodeView::Literal(false, seq![VarInt(2)], None, "login"@),
            CommandNodeView::Argument(true, Seq::empty(), None, "password"@, single_word, false),
        ]
    } else {
        seq![
            CommandNodeView::Root(seq![VarInt(1)]),
            CommandNodeView::Literal(false, seq![VarInt(2)], None, "register"@),
            CommandNodeView::Argument(
                false,
                seq![VarInt(3)],
                None,
                "password"@,
                single_word,
                false,
            ),
        ]
    }
}

impl LoginWorld {
    /// The command tree declared to a player who joins the login world: only
    /// the command that fits whether the username already has an account.
    pub fn declared_commands(&self, username: &str) -> (res: Vec<CommandNode>)
        ensures
            res.deep_view() == login_command_tree(self.accounts@.contains_key(username@)),
    {
        let registered = self.accounts.get(username).is_some();
        let root_children = vec![VarInt(1)];
        let literal_children = vec![VarInt(2)];
        let (name, executable, argument_children) = if registered {
            // if the user is already registered
            // only register the /login command
            (String::from_str("login"), true, Vec::new())
        } else {
            // and if the user is not registered yet
            // only register the /register command
            (String::from_str("register"), false, vec![VarInt(3)])
        };
        proof {
            assert(root_children.deep_view() =~= seq![VarInt(1)]);
            assert(literal_children.deep_view() =~= seq![VarInt(2)]);
            if registered {
                assert(argument_children.deep_view() =~= Seq::<VarInt>::empty());
            } else {
                assert(argument_children.deep_view() =~= seq![VarInt(3)]);
            }
        }
        let mut nodes: Vec<CommandNode> = Vec::new();
        nodes.push(CommandNode::Root(root_children));
        nodes.push(CommandNode::Literal(false, literal_children, None, name));
        nodes.push(
            CommandNode::Argument(
                executable,
                argument_children,
                None,
                String::from_str("password"),
                Parser::String(VarInt(0)),
                false,
            ),
        );
        assert(nodes.deep_view() =~= login_command_tree(registered));
        nodes
    }
}

/// A player who registers with a password can log in with it afterwards:
/// `/register <password> <again>` lets the player in, and a later
/// `/login <password>` succeeds. Passwords are single words.
pub proof fn lemma_register_then_login(
    accounts: Map<Seq<char>, Seq<char>>,
    username: Seq<char>,
    password: Seq<char>,
    again: Seq<char>,
)
    requires
        !accounts.contains_key(username),
        !password.contains(' '),
        !again.contains(' '),
    ensures
        ({
            let reg = login_action(
                accounts,
                username,
                "/register "@ + password + seq![' '] + again,
            );
            &&& reg.0 == LoginAction::Registered { mismatch: password != again }
            &&& login_action(reg.1, username, "/login "@ + password).0 == LoginAction::EnterLobby
        }),
{
    reveal_strlit("/register ");
    reveal_strlit("/register");
    reveal_strlit("/login ");
    reveal_strlit("/login");
    let m1 = "/register "@ + password + seq![' '] + again;
    assert("/register "@ =~= "/register"@ + seq![' ']);
    assert(m1 =~= "/register"@ + seq![' '] + (password + seq![' '] + again));
    crate::text::lemma_split_concat("/register"@, password + seq![' '] + again, ' ');
    crate::text::lemma_split_concat(password, again, ' ');
    crate::text::lemma_split_no_sep("/register"@, ' ');
    crate::text::lemma_split_no_sep(password, ' ');
    crate::text::lemma_split_no_sep(again, ' ');
    let w1 = split_on(m1, ' ');
    assert(w1 =~= seq!["/register"@, password, again]);
    assert(m1.subrange(0, 10) =~= "/register "@);
    assert(m1[1] == 'r');
    assert(!has_prefix(m1, "/login "@));
    let m2 = "/login "@ + password;
    assert("/login "@ =~= "/login"@ + seq![' ']);
    assert(m2 =~= "/login"@ + seq![' '] + password);
    crate::text::lemma_split_concat("/login"@, password, ' ');
    crate::text::lemma_split_no_sep("/login"@, ' ');
    assert(split_on(m2, ' ') =~= seq!["/login"@, password]);
    assert(m2.subrange(0, 7) =~= "/login "@);
}

// Saving and loading the accounts //
/////////////////////////////////////

/// A username or hash that the file keeps as it is: one word on one line.
pub open spec fn plain_field(f: Seq<char>) -> bool {
    !f.contains(' ') && !f.contains('\n') && !f.contains('\r')
}

pub open spec fn line_of(e: (String, String)) -> Seq<char> {
    e.0@ + seq![' '] + e.1@
}

proof fn lemma_line_plain(e: (String, String))
    requires
        plain_field(e.0@),
        plain_field(e.1@),
    ensures
        !line_of(e).contains('\n'),
        split_on(line_of(e), ' ') == seq![e.0@, e.1@],
        line_of(e).len() > 0 && line_of(e).last() != '\r',
{
    let l = line_of(e);
    assert(!l.contains('\n')) by {
        if l.contains('\n') {
            let i = choose|i: int| 0 <= i < l.len() && l[i] == '\n';
            if i < e.0@.len() {
                assert(e.0@[i] == '\n');
            } else if i > e.0@.len() {
                assert(e.1@[i - e.0@.len() - 1] == '\n');
            }
        }
    }
    crate::text::lemma_split_concat(e.0@, e.1@, ' ');
    crate::text::lemma_split_no_sep(e.0@, ' ');
    crate::text::lemma_split_no_sep(e.1@, ' ');
    if e.1@.len() > 0 {
        assert(l.last() == e.1@[e.1@.len() - 1]);
    }
}

pub open spec fn file_lines(entries: Seq<(String, String)>) -> Seq<Seq<char>> {
    Seq::new(entries.len(), |i: int| line_of(entries[i]))
}

#[verifier::spinoff_prover]
proof fn lemma_file_split(entries: Seq<(String, String)>)
    requires
        forall|i: int|
            0 <= i < entries.len() ==> plain_field((#[trigger] entries[i]).0@) && plain_field(
                entries[i].1@,
            ),
    ensures
        split_on(accounts_file(entries), '\n') == file_lines(entries).push(Seq::empty()),
    decreases entries.len(),
{
    if entries.len() == 0 {
        assert(split_on(accounts_file(entries), '\n') =~= file_lines(entries).push(Seq::empty()));
    } else {
        let rest = entries.drop_last();
        let e = entries.last();
        assert(plain_field(entries[entries.len() - 1].0@));
        lemma_file_split(rest);
        lemma_line_plain(e);
        let x = accounts_file(rest);
        let line = line_of(e);
        crate::text::lemma_split_extend(x, line, '\n');
        assert(accounts_file(entries) =~= (x + line).push('\n'));
        assert((x + line).push('\n').drop_last() =~= x + line);
        let s = file_lines(rest).push(Seq::empty());
        assert(s.last() + line =~= line);
        assert(s.update(s.len() - 1, line).push(Seq::empty()) =~= file_lines(entries).push(
            Seq::empty(),
        ));
    }
}

proof fn lemma_parse_file(entries: Seq<(String, String)>, i: int)
    requires
        0 <= i <= entries.len(),
        forall|k: int|
            0 <= k < entries.len() ==> plain_field((#[trigger] entries[k]).0@) && plain_field(
                entries[k].1@,
            ),
    ensures
        parse_lines(file_lines(entries), i, accounts_map(entries.take(i))) == Ok::<
            Map<Seq<char>, Seq<char>>,
            AccountsError,
        >(accounts_map(entries)),
    decreases entries.len() - i,
{
    if i == entries.len() {
        assert(entries.take(i) =~= entries);
    } else {
        assert(plain_field(entries[i].0@));
        lemma_line_plain(entries[i]);
        assert(entries.take(i + 1).drop_last() =~= entries.take(i));
        lemma_parse_file(entries, i + 1);
    }
}

/// The last entry with a username, -1 for none.
proof fn last_with_key(e: Seq<(String, String)>, x: Seq<char>) -> (j: int)
    ensures
        -1 <= j < e.len(),
        j >= 0 ==> e[j].0@ == x,
        forall|k: int| j < k < e.len() ==> e[k].0@ != x,
    decreases e.len(),
{
    if e.len() == 0 {
        -1
    } else if e.last().0@ == x {
        e.len() - 1
    } else {
        let j = last_with_key(e.drop_last(), x);
        assert forall|k: int| j < k < e.len() implies e[k].0@ != x by {
            if k < e.len() - 1 {
                assert(e.drop_last()[k] == e[k]);
            }
        }
        if j >= 0 {
            assert(e.drop_last()[j] == e[j]);
        }
        j
    }
}

/// An entry among the first `k` that counts.
pub open spec fn counted_entry(e: Seq<(String, String)>, k: int, c: (String, String)) -> bool {
    exists|i: int| 0 <= i < k && live_entry(e, i) && c == e[i]
}

proof fn lemma_live_upto(e: Seq<(String, String)>, k: int)
    requires
        0 <= k <= e.len(),
    ensures
        forall|m: int|
            0 <= m < live_upto(e, k).len() ==> counted_entry(e, k, #[trigger] live_upto(e, k)[m]),
        forall|i: int| 0 <= i < k && live_entry(e, i) ==> live_upto(e, k).contains(#[trigger] e[i]),
        forall|m1: int, m2: int|
            0 <= m1 < m2 < live_upto(e, k).len() ==> (#[trigger] live_upto(e, k)[m1]).0@
                != (#[trigger] live_upto(e, k)[m2]).0@,
    decreases k,
{
    if k > 0 {
        lemma_live_upto(e, k - 1);
        let l0 = live_upto(e, k - 1);
        let l = live_upto(e, k);
        if live_entry(e, k - 1) {
            assert(l == l0.push(e[k - 1]));
            assert forall|m: int| 0 <= m < l.len() implies counted_entry(e, k, #[trigger] l[m]) by {
                if m < l0.len() {
                    assert(l[m] == l0[m]);
                    assert(counted_entry(e, k - 1, l0[m]));
                    let i = choose|i: int| 0 <= i < k - 1 && live_entry(e, i) && l0[m] == e[i];
                    assert(0 <= i < k && live_entry(e, i) && l[m] == e[i]);
                } else {
                    assert(l[m] == e[k - 1]);
                    assert(0 <= k - 1 < k && live_entry(e, k - 1) && l[m] == e[k - 1]);
                }
            }
            assert forall|i: int| 0 <= i < k && live_entry(e, i) implies l.contains(
                #[trigger] e[i],
            ) by {
                if i < k - 1 {
                    assert(l0.contains(e[i]));
                    let m = choose|m: int| 0 <= m < l0.len() && l0[m] == e[i];
                    assert(l[m] == e[i]);
                } else {
                    assert(l[l.len() - 1] == e[i]);
                }
            }
            assert forall|m1: int, m2: int| 0 <= m1 < m2 < l.len() implies (#[trigger] l[m1]).0@
                != (#[trigger] l[m2]).0@ by {
                if m2 < l0.len() {
                    assert(l[m1] == l0[m1] && l[m2] == l0[m2]);
                } else {
                    assert(l[m1] == l0[m1]);
                    assert(counted_entry(e, k - 1, l0[m1]));
                    let i1 = choose|i1: int| 0 <= i1 < k - 1 && live_entry(e, i1) && l0[m1] == e[i1];
                    assert(l[m2] == e[k - 1]);
                }
            }
        } else {
            assert(l == l0);
            assert forall|m: int| 0 <= m < l.len() implies counted_entry(e, k, #[trigger] l[m]) by {
                assert(counted_entry(e, k - 1, l0[m]));
                let i = choose|i: int| 0 <= i < k - 1 && live_entry(e, i) && l0[m] == e[i];
                assert(0 <= i < k && live_entry(e, i) && l[m] == e[i]);
            }
            assert forall|i: int| 0 <= i < k && live_entry(e, i) implies l.contains(
                #[trigger] e[i],
            ) by {
                if i == k - 1 {
                    assert(false);
                }
            }
        }
    }
}

/// Only the last entry of each username counts, so keeping just those keeps the accounts.
proof fn lemma_live_map(e: Seq<(String, String)>)
    ensures
        accounts_map(live_upto(e, e.len() as int)) == accounts_map(e),
{
    let l = live_upto(e, e.len() as int);
    lemma_live_upto(e, e.len() as int);
    assert forall|x: Seq<char>|
        (#[trigger] accounts_map(l).contains_key(x) <==> accounts_map(e).contains_key(x)) && (
        accounts_map(l).contains_key(x) ==> accounts_map(l)[x] == accounts_map(e)[x]) by {
        let j = last_with_key(e, x);
        lemma_last_entry(e, x, j);
        if j < 0 {
            assert forall|m: int| -1 < m < l.len() implies l[m].0@ != x by {
                assert(counted_entry(e, e.len() as int, l[m]));
                let i = choose|i: int| 0 <= i < e.len() && live_entry(e, i) && l[m] == e[i];
            }
            lemma_last_entry(l, x, -1);
        } else {
            assert(live_entry(e, j));
            assert(l.contains(e[j]));
            let m = choose|m: int| 0 <= m < l.len() && l[m] == e[j];
            assert forall|m2: int| m < m2 < l.len() implies l[m2].0@ != x by {
                assert(l[m].0@ != l[m2].0@);
            }
            lemma_last_entry(l, x, m);
        }
    }
    assert(accounts_map(l) =~= accounts_map(e));
}

/// Saving the accounts and reading the file back gives the same accounts,
/// when usernames and hashes are single words on one line (hashes always are).
pub proof fn lemma_accounts_file_roundtrip(accounts: Accounts)
    requires
        forall|i: int|
            0 <= i < accounts.entries@.len() ==> plain_field((#[trigger] accounts.entries@[i]).0@)
                && plain_field(accounts.entries@[i].1@),
    ensures
        parse_accounts_spec(
            accounts_file(live_upto(accounts.entries@, accounts.entries@.len() as int)),
        ) == Ok::<Map<Seq<char>, Seq<char>>, AccountsError>(accounts@),
{
    let e = accounts.entries@;
    let l = live_upto(e, e.len() as int);
    lemma_live_upto(e, e.len() as int);
    assert forall|m: int| 0 <= m < l.len() implies plain_field((#[trigger] l[m]).0@) && plain_field(
        l[m].1@,
    ) by {
        assert(counted_entry(e, e.len() as int, l[m]));
        let i = choose|i: int| 0 <= i < e.len() && live_entry(e, i) && l[m] == e[i];
    }
    lemma_file_split(l);
    let text = accounts_file(l);
    assert forall|i: int| 0 <= i < l.len() implies line_of(#[trigger] l[i]).len() > 0 && line_of(
        l[i],
    ).last() != '\r' by {
        lemma_line_plain(l[i]);
    }
    assert(lines(text) =~= file_lines(l));
    lemma_parse_file(l, 0);
    assert(l.take(0) =~= Seq::<(String, String)>::empty());
    lemma_live_map(e);
}

} // verus!
